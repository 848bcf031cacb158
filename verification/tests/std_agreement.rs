use std::path::Path;

use asciinema::text::{chars_of, split_lines, split_words, trim_chars};
use asciinema::BuildPaths;

fn samples() -> Vec<&'static str> {
    vec![
        "", "\n", "a", "a\n", "a\r\n", "a\r", "\r\n", "a\nb", "a\n\nb\n", " a b ", "\ta\u{a0}b\u{3000}",
        "x\r\r\n", "\u{2028}q\u{85}", "  ", "a  b\n c ", "é\u{1680}ü",
    ]
}

fn text(v: &[char]) -> String {
    v.iter().collect()
}

#[test]
fn lines_agree_with_str_lines() {
    for s in samples() {
        let ours: Vec<String> = split_lines(&chars_of(s)).iter().map(|l| text(l)).collect();
        let std: Vec<String> = s.lines().map(str::to_owned).collect();
        assert_eq!(ours, std, "{s:?}");
    }
}

#[test]
fn words_agree_with_split_whitespace() {
    for s in samples() {
        let ours: Vec<String> = split_words(&chars_of(s)).iter().map(|w| text(w)).collect();
        let std: Vec<String> = s.split_whitespace().map(str::to_owned).collect();
        assert_eq!(ours, std, "{s:?}");
    }
}

#[test]
fn trim_agrees_with_str_trim() {
    for s in samples() {
        assert_eq!(text(&trim_chars(&chars_of(s))), s.trim(), "{s:?}");
    }
}

#[test]
fn build_paths_agree_with_std_paths() {
    let scripts = [
        "demo.sh", "a/demo.sh", "a//demo.sh", "a/./demo.sh", "./demo.sh", "/demo.sh", "//demo.sh",
        "a/b/c.d.sh", "a/demo.sh/", "a/demo.sh/.", ".sh", "a/.sh", "x.", "..", "a/..", "demo.SH",
        "./", ".", "/", "", "a.sh.sh", "../up.sh", ".hidden.sh",
    ];
    for script in scripts {
        let path = Path::new(script);
        let expected = if path.extension().is_some_and(|e| e == "sh") {
            let stem = path.file_stem().unwrap().to_str().unwrap();
            let parent = path.parent().unwrap_or_else(|| Path::new("."));
            let out = parent.join(stem);
            Some((
                out.to_str().unwrap().to_owned(),
                out.join(format!("{stem}.cast")).to_str().unwrap().to_owned(),
                out.join("snapshots").to_str().unwrap().to_owned(),
            ))
        } else {
            None
        };
        let ours = BuildPaths::new(script, None)
            .ok()
            .map(|p| (p.output_dir, p.cast, p.snapshot_dir));
        assert_eq!(ours, expected, "{script:?}");
    }
}
