use tide::path::FilePath;
use tide::syntax::Highlighter;

#[test]
fn rust_source_gets_several_colours() {
    let h = Highlighter::new();
    let runs = h.highlight("fn main() {\n    let x = \"é\";\n}", &FilePath::parse("/p/src/main.rs"));
    assert_eq!(runs.len(), 3);
    let sum: usize = runs[1].iter().map(|r| r.0).sum();
    assert_eq!(sum, "    let x = \"é\";".len());
    assert!(runs[0].len() > 1);
    assert!(runs[0].iter().any(|r| r.1 != runs[0][0].1));
}

#[test]
fn every_line_is_covered() {
    let h = Highlighter::new();
    let text = "# Title\n\n- é item `code`\n\tend";
    for name in ["/p/a.md", "/p/a.unknown", "/p/Makefile", "/p/a.tsx"] {
        let runs = h.highlight(text, &FilePath::parse(name));
        let lines: Vec<&str> = text.split('\n').collect();
        assert_eq!(runs.len(), lines.len());
        for (r, l) in runs.iter().zip(lines.iter()) {
            assert_eq!(r.iter().map(|x| x.0).sum::<usize>(), l.len(), "{}", name);
        }
    }
}

#[test]
fn plain_text_has_one_colour() {
    let h = Highlighter::new();
    let runs = h.highlight("just words", &FilePath::parse("/p/x.nosuchext"));
    assert!(runs[0].iter().all(|r| r.1 == runs[0][0].1));
}

#[test]
fn a_very_long_line_is_plain() {
    let h = Highlighter::new();
    let long = format!("let x = \"{}\";", "y".repeat(10000));
    let text = format!("fn main() {{\n{}\n}}", long);
    let runs = h.highlight(&text, &FilePath::parse("/p/a.rs"));
    assert_eq!(runs.len(), 3);
    assert_eq!(runs[1].len(), 1);
    assert_eq!(runs[1][0].0, long.len());
    assert!(runs[0].len() > 1);
}

#[test]
fn a_line_of_the_longest_length_is_highlighted() {
    let h = Highlighter::new();
    for (c, name) in [
        ('y', "/p/a.rb"),
        ('\u{1d400}', "/p/a.rb"),
        ('K', "/p/a.org"),
        ('\u{1d400}', "/p/a.sh"),
        ('\u{1d400}', "/p/a.vhd"),
    ] {
        let word: String = std::iter::repeat(c).take(9900).collect();
        let text = match name {
            "/p/a.org" => format!("#+BEGIN_{}\ntext\n#+END_{}", word, word),
            "/p/a.vhd" => format!("function {} return x is\nbegin\nend function {};", word, word),
            _ => format!("cat <<{}\ntext\n{}\ndone", word, word),
        };
        let lines: Vec<&str> = text.split('\n').collect();
        let runs = h.highlight(&text, &FilePath::parse(name));
        for (r, l) in runs.iter().zip(lines.iter()) {
            assert_eq!(r.iter().map(|x| x.0).sum::<usize>(), l.len(), "{}", name);
        }
    }
}
