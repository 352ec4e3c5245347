use tide::keys::Keystroke;
use tide::processes::{
    descendants_of, fmt_mem, kill_all_label, kill_label, parse_ps, proc_key, process_count_label, ProcKey, Proc,
    ProcessManager,
};

fn sample() -> Vec<Proc> {
    parse_ps(
        "  1  0  100 root /sbin/launchd\n 10 1 5000 me /usr/bin/tide\n 11 10 9000 me /bin/zsh -l\n 12 11 200 me node server\nx 1 1 a b\n 13 1 1 me\n 14 1 7000 me /opt/Other App\n",
    )
}

#[test]
fn processes_are_read_largest_first() {
    let v = sample();
    let got: Vec<(u32, u64)> = v.iter().map(|p| (p.pid, p.rss_kb)).collect();
    assert_eq!(got, vec![(11, 9000), (14, 7000), (10, 5000), (12, 200), (1, 100)]);
    assert_eq!(v[0].comm, "/bin/zsh -l");
    assert_eq!(v[0].name, "zsh -l");
    assert_eq!(v[1].name, "Other App");
    assert_eq!((v[2].ppid, v[2].user.as_str()), (1, "me"));
}

#[test]
fn descendants_are_all_found() {
    let v = sample();
    let mut d = descendants_of(&v, &vec![10]);
    d.sort();
    assert_eq!(d, vec![10, 11, 12]);
    let mut all = descendants_of(&v, &vec![1]);
    all.sort();
    assert_eq!(all, vec![1, 10, 11, 12, 14]);
}

#[test]
fn a_cycle_of_parents_ends() {
    let v = parse_ps("1 2 1 a x\n2 1 1 a y\n");
    let mut d = descendants_of(&v, &vec![1]);
    d.sort();
    assert_eq!(d, vec![1, 2]);
}

#[test]
fn the_list_is_filtered() {
    let mut m = ProcessManager::new(10);
    m.show(sample(), vec![11]);
    assert!(m.open);
    let ids = |m: &ProcessManager, f: &str| -> Vec<u32> { m.rows(f).iter().map(|p| p.pid).collect() };
    assert_eq!(ids(&m, ""), vec![11, 12]);
    m.toggle_workspace_only();
    assert_eq!(ids(&m, ""), vec![11, 12]);
    m.toggle_only_tide();
    assert_eq!(ids(&m, ""), vec![11, 14, 12, 1]);
    assert_eq!(ids(&m, "OTHER"), vec![14]);
    assert_eq!(ids(&m, "Root"), vec![1]);
    assert_eq!(ids(&m, "nobody"), Vec::<u32>::new());
}

#[test]
fn processes_are_selected() {
    let mut m = ProcessManager::new(10);
    m.show(sample(), vec![]);
    m.workspace_only = false;
    m.only_tide = false;
    m.select("", 1, false, false);
    assert_eq!(m.selected, vec![14]);
    m.select("", 3, true, false);
    let mut s = m.selected.clone();
    s.sort();
    assert_eq!(s, vec![1, 12, 14]);
    m.select("", 0, false, true);
    assert!(m.selected.contains(&11));
    m.select("", 0, false, true);
    assert!(!m.selected.contains(&11));
}

#[test]
fn a_process_is_selected_once() {
    let mut m = ProcessManager::new(10);
    m.show(parse_ps("5 1 300 me a\n5 1 200 me a\n6 1 100 me b\n"), vec![]);
    m.workspace_only = false;
    m.only_tide = false;
    m.select("", 0, false, false);
    m.select("", 2, true, false);
    assert_eq!(m.selected, vec![5, 6]);
    let d = m.dialog("");
    assert_eq!((d.count.as_str(), d.kill.as_str()), ("2 selected · 3 processes", kill_label(2).as_str()));
    m.select("", 1, false, true);
    assert_eq!(m.selected, vec![6]);
}

#[test]
fn a_reload_keeps_the_selection() {
    let mut m = ProcessManager::new(10);
    m.show(sample(), vec![11]);
    m.select("", 0, false, false);
    m.reloaded(sample(), vec![14]);
    assert_eq!((m.selected.clone(), m.anchor, m.workspace_pids.clone()), (vec![11], Some(0), vec![14]));
    m.filter_changed();
    assert_eq!((m.selected.clone(), m.anchor), (vec![11], None));
    m.killed(sample(), vec![11]);
    assert!(m.selected.is_empty());
    m.close();
    assert!(!m.open);
}

#[test]
fn keys_in_the_process_list() {
    let cmd = |k: &str| {
        let mut s = Keystroke::plain(k);
        s.platform = true;
        proc_key(&s)
    };
    assert_eq!(proc_key(&Keystroke::plain("escape")), ProcKey::Close);
    assert_eq!(proc_key(&Keystroke::plain("backspace")), ProcKey::Edit);
    assert_eq!(cmd("backspace"), ProcKey::KillSelected);
    assert_eq!(cmd("r"), ProcKey::Reload);
}

#[test]
fn labels_count() {
    assert_eq!(process_count_label(0, 3), "3 processes");
    assert_eq!(process_count_label(2, 3), "2 selected · 3 processes");
    assert_eq!(kill_label(0), "Kill");
    assert_eq!(kill_label(2), "Kill (2)");
    assert_eq!(kill_all_label(5), "Kill All (5)");
}

#[test]
fn sizes_are_those_that_floats_print() {
    let float = |kb: u64| {
        let mb = kb as f64 / 1024.0;
        if mb >= 1024.0 {
            format!("{:.2} GB", mb / 1024.0)
        } else {
            format!("{:.1} MB", mb)
        }
    };
    for kb in [0u64, 1, 51, 52, 256, 768, 1023, 1024, 1048575, 1048576, 1572864, 1053818, u64::MAX, u64::MAX - 1024, 1 << 53, (1 << 53) + 1, (1 << 60) + 129] {
        assert_eq!(fmt_mem(kb), float(kb), "{}", kb);
    }
    let mut kb = 1u64;
    for _ in 0..20000 {
        kb = kb.wrapping_mul(6364136223846793005).wrapping_add(1442695040888963407);
        for v in [kb, kb >> 20, kb >> 40, kb >> 48] {
            assert_eq!(fmt_mem(v), float(v), "{}", v);
        }
    }
    assert_eq!(fmt_mem(256), "0.2 MB");
    assert_eq!(fmt_mem(1572864), "1.50 GB");
}

#[test]
fn the_dialog_is_drawn() {
    let mut m = ProcessManager::new(10);
    m.show(sample(), vec![]);
    m.workspace_only = false;
    let d = m.dialog("");
    assert!(d.tide_on && !d.workspace_on && !d.can_kill && d.can_kill_all);
    assert_eq!(d.rows.len(), 2);
    assert_eq!((d.rows[0].name.as_str(), d.rows[0].memory.as_str(), d.rows[0].pid.as_str()), ("zsh -l", "8.8 MB", "11"));
    m.select("", 0, false, false);
    let d = m.dialog("");
    assert!(d.rows[0].selected && !d.rows[1].selected && d.can_kill);
    assert_eq!((d.kill.as_str(), d.count.as_str(), d.kill_all.as_str()), ("Kill (1)", "1 selected · 2 processes", "Kill All (2)"));
    m.workspace_only = true;
    assert!(!m.dialog("").tide_on);
    m.killed(Vec::new(), vec![]);
    assert!(m.dialog("").rows.is_empty());
}

#[test]
fn many_processes_are_cut() {
    let mut text = String::new();
    for i in 0..900 {
        text.push_str(&format!("{} 1 5 me x\n", i + 100));
    }
    let mut m = ProcessManager::new(10);
    m.show(parse_ps(&text), vec![]);
    m.workspace_only = false;
    m.only_tide = false;
    let d = m.dialog("");
    assert_eq!((d.rows.len(), d.kill_all.as_str()), (800, "Kill All (900)"));
}
