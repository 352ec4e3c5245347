use tide::badge::{ext_badge, git_color, pr_status_color, progress_color, Icon};
use tide::git::GitState;
use tide::path::FilePath;
use tide::theme::{GIT_DELETED, GIT_MODIFIED, GIT_NEW};

#[test]
fn states_have_colours() {
    assert_eq!(git_color(GitState::New), GIT_NEW);
    assert_eq!(git_color(GitState::Modified), GIT_MODIFIED);
    assert_eq!(git_color(GitState::Deleted), GIT_DELETED);
    assert_eq!(pr_status_color(GitState::New), 0x569cd6);
    assert_eq!(pr_status_color(GitState::Modified), 0x73c991);
    assert_eq!(pr_status_color(GitState::Deleted), 0x858585);
}

#[test]
fn badges_go_by_extension() {
    let a = ext_badge(&FilePath::parse("/p/a.rs"));
    let b = ext_badge(&FilePath::parse("/p/a.unknown"));
    assert_ne!(a, b);
    assert_eq!(ext_badge(&FilePath::parse("/q/b.rs")), a);
    for (f, sign, color) in [
        ("a.rs", "rs", 0xdea584),
        ("a.tsx", "ts", 0x3178c6),
        ("a.mjs", "js", 0xf1e05a),
        ("a.json", "{}", 0xcbcb41),
        ("a.md", "md", 0x9aa5ce),
        ("a.yml", "cfg", 0x6d8086),
        ("a.scss", "css", 0x563d7c),
        ("a.html", "<>", 0xe34c26),
        ("a.zsh", "sh", 0x89e051),
        ("Cargo.lock", "lk", 0x565f89),
        ("Makefile", "·", 0x565f89),
        ("A.RS", "·", 0x565f89),
    ] {
        assert_eq!(ext_badge(&FilePath::parse(f)), (sign.to_string(), color), "{}", f);
    }
}

#[test]
fn icons_are_single_glyphs() {
    assert_eq!(Icon::Folder.glyph(), '\u{ea83}');
    assert_eq!(Icon::Check.glyph_text(), "\u{eab2}");
}

fn hsl(h: f32, s: f32, l: f32) -> u32 {
    let c = (1.0 - (2.0 * l - 1.0).abs()) * s;
    let hp = h / 60.0;
    let x = c * (1.0 - (hp % 2.0 - 1.0).abs());
    let (r, g, b) = if hp < 1.0 {
        (c, x, 0.0)
    } else if hp < 2.0 {
        (x, c, 0.0)
    } else {
        (0.0, c, x)
    };
    let m = l - c / 2.0;
    let to8 = |v: f32| ((v + m) * 255.0).round().clamp(0.0, 255.0) as u32;
    (to8(r) << 16) | (to8(g) << 8) | to8(b)
}

#[test]
fn progress_goes_from_red_to_green() {
    for pct in 0..=120usize {
        let want = hsl((pct.min(100) as f32 / 100.0) * 120.0, 0.55, 0.5);
        assert_eq!(progress_color(pct), want, "{}", pct);
    }
    assert_eq!(progress_color(0), 0xc63939);
    assert_eq!(progress_color(50), 0xc6c639);
    assert_eq!(progress_color(100), 0x39c639);
}

#[test]
fn progress_never_turns_back() {
    for pct in 0..100usize {
        let (a, b) = (progress_color(pct), progress_color(pct + 1));
        assert!(a >> 16 >= b >> 16);
        assert!((a >> 8) & 0xff <= (b >> 8) & 0xff);
    }
}
