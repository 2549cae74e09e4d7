use std::path::Path;

use logpipe::source::path::UnixPath;
use logpipe::text::{
    break_at, has_char, has_part, is_whitespace, join, less, push_blanks, push_decimal,
    push_padded, rsplit_once, same, split_first, split_once, strip_prefix, strip_suffix, trim,
    trim_end_char, trim_start, Stop,
};

#[test]
fn white_space_is_what_std_says() {
    for c in '\u{0}'..=char::MAX {
        assert_eq!(is_whitespace(c), c.is_whitespace(), "{c:?}");
    }
}

#[test]
fn trimming_is_what_std_does() {
    for s in ["", " ", "a", " a ", "\u{3000}中 文\u{2003}\n", "\t\r\n", "a b", "\u{85}x\u{a0}"] {
        assert_eq!(trim(s), s.trim());
        assert_eq!(trim_start(s), s.trim_start());
    }
}

#[test]
fn splitting_is_what_std_does() {
    for s in ["", "_", "a_b", "a_b_c", "__", "中_文_", "none"] {
        assert_eq!(split_once(s, '_'), s.split_once('_'));
        assert_eq!(rsplit_once(s, '_'), s.rsplit_once('_'));
        assert_eq!(strip_prefix(s, "a"), s.strip_prefix("a"));
        assert_eq!(strip_prefix(s, ""), s.strip_prefix(""));
        assert_eq!(strip_suffix(s, "c"), s.strip_suffix("c"));
        assert_eq!(strip_suffix(s, "文_"), s.strip_suffix("文_"));
        assert_eq!(trim_end_char(s, '_'), s.trim_end_matches('_'));
        assert_eq!(has_char(s, '_'), s.contains('_'));
        assert_eq!(has_part(s, "_b"), s.contains("_b"));
        assert_eq!(has_part(s, ""), s.contains(""));
        assert_eq!(split_first(s).map(|(c, _)| c), s.chars().next());
    }
}

#[test]
fn texts_are_ordered_as_std_orders_them() {
    let all = ["", "a", "ab", "b", "中", "文", "\u{10000}", "\u{ffff}", "é", "e"];
    for a in all {
        for b in all {
            assert_eq!(less(a, b), a < b, "{a:?} {b:?}");
            assert_eq!(same(a, b), a == b);
        }
    }
}

#[test]
fn a_text_breaks_where_a_stop_hits() {
    assert_eq!(break_at("abc def", Stop::Space), ("abc", " def"));
    assert_eq!(break_at("INFOx", Stop::NonUpper), ("INFO", "x"));
    assert_eq!(break_at("中:文", Stop::Char(':')), ("中", ":文"));
    assert_eq!(break_at("", Stop::Space), ("", ""));
}

#[test]
fn numbers_are_written_in_decimal() {
    let mut out = String::new();
    push_decimal(&mut out, 0);
    out.push(' ');
    push_decimal(&mut out, u64::MAX);
    out.push(' ');
    push_padded(&mut out, 7, 3);
    out.push(' ');
    push_padded(&mut out, 12345, 2);
    push_blanks(&mut out, 3);
    out.push('|');
    assert_eq!(out, format!("0 {} 007 45   |", u64::MAX));
    assert_eq!(join(&["a", "b", "c"].map(String::from).to_vec(), " / "), "a / b / c");
    assert_eq!(join(&Vec::new(), " / "), "");
}

#[test]
fn paths_are_taken_apart_as_std_does() {
    let all = [
        "", "/", "//", ".", "./", "..", "a", "a/", "/a", "/a/", "/a/b", "a/./b", "./a", "/./a",
        "a//b", "/a/../b", "a/..", "a/.", "/var/log/app.log", "x.tar.gz", ".bashrc", "a.", "..a",
        "/var/log/pods/ns_pod_uid/app/0.log.20260907-123709.gz", "中/文.日志",
    ];
    for raw in all {
        let std_path = Path::new(raw);
        let path = UnixPath::new(raw);
        assert_eq!(path.file_name(), std_path.file_name().and_then(|n| n.to_str()), "{raw}");
        assert_eq!(path.extension(), std_path.extension().and_then(|n| n.to_str()), "{raw}");
        let parent = UnixPath::new(raw).parent();
        assert_eq!(parent.is_some(), std_path.parent().is_some(), "{raw}");
        if let (Some(ours), Some(theirs)) = (parent, std_path.parent()) {
            assert!(ours.is_same(&UnixPath::new(theirs.to_str().unwrap())), "{raw}");
        }
        for other in all {
            let std_other = Path::new(other);
            assert_eq!(path.is_same(&UnixPath::new(other)), std_path == std_other, "{raw} {other}");
            assert_eq!(path.is_before(&UnixPath::new(other)), std_path < std_other, "{raw} {other}");
        }
    }
}
