use link_cache::lines::LineSplitter;
use link_cache::paths::{has_json_extension, output_path};

fn b(s: &str) -> Vec<u8> {
    s.as_bytes().to_vec()
}

#[test]
fn splits_lf_and_crlf_lines() {
    let mut sp = LineSplitter::new();
    sp.push_chunk(&b("ab\ncd\r\nef"));
    assert_eq!(sp.next_line(), Some(b("ab")));
    assert_eq!(sp.next_line(), Some(b("cd")));
    assert_eq!(sp.next_line(), None);
    assert_eq!(sp.finish(), Some(b("ef")));
    assert_eq!(sp.finish(), None);
}

#[test]
fn terminator_split_across_chunks() {
    let mut sp = LineSplitter::new();
    sp.push_chunk(&b("x\r"));
    assert_eq!(sp.next_line(), None);
    sp.push_chunk(&b("\ny"));
    assert_eq!(sp.next_line(), Some(b("x")));
    assert_eq!(sp.finish(), Some(b("y")));
}

#[test]
fn empty_line_between_terminators() {
    let mut sp = LineSplitter::new();
    sp.push_chunk(&b("\n\n"));
    assert_eq!(sp.next_line(), Some(b("")));
    assert_eq!(sp.next_line(), Some(b("")));
    assert_eq!(sp.next_line(), None);
    assert_eq!(sp.finish(), None);
}

#[test]
fn output_path_appends_downloaded() {
    assert_eq!(
        output_path(&b("data/day/2020.json")),
        b("data/day/2020.json.downloaded")
    );
}

#[test]
fn json_extension_is_exact() {
    assert!(has_json_extension(&b("data/a.json")));
    assert!(has_json_extension(&b("a.json")));
    assert!(!has_json_extension(&b("data/a.JSON")));
    assert!(!has_json_extension(&b("data/ajson")));
    assert!(!has_json_extension(&b("data/a.jsonl")));
    assert!(!has_json_extension(&b("data/.json")));
    assert!(has_json_extension(&b("data/dir.json/")));
}
