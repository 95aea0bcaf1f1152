use link_cache::rewrite::process_line;
use link_cache::ArchiveError;

fn b(s: &str) -> Vec<u8> {
    s.as_bytes().to_vec()
}

fn s(v: &[u8]) -> String {
    String::from_utf8(v.to_vec()).unwrap()
}

#[test]
fn allow_listed_field_untouched() {
    let line = b(r#"{"thumb_80": "https:\/\/files.slack.com\/a_small.png"}"#);
    let out = process_line(&line).unwrap();
    assert_eq!(out.text, line);
    assert_eq!(out.jobs.len(), 0);
}

#[test]
fn url_private_passes_through() {
    let line = b(r#"{"url_private": "https:\/\/files.slack.com\/a.png"}"#);
    let out = process_line(&line).unwrap();
    assert_eq!(out.text, line);
    assert_eq!(out.jobs.len(), 0);
}

#[test]
fn non_matching_domain_untouched() {
    let line = b(r#"{"icon": "https:\/\/example.com\/x.png"}"#);
    let out = process_line(&line).unwrap();
    assert_eq!(out.text, line);
    assert_eq!(out.jobs.len(), 0);
}

#[test]
fn bare_slack_domain_is_not_matched() {
    let line = b(r#"{"icon": "https:\/\/slack.com\/x.png"}"#);
    let out = process_line(&line).unwrap();
    assert_eq!(out.text, line);
    assert_eq!(out.jobs.len(), 0);
}

#[test]
fn two_subdomain_labels_are_not_matched() {
    let line = b(r#"{"icon": "https:\/\/a.b.gravatar.com\/x.png"}"#);
    let out = process_line(&line).unwrap();
    assert_eq!(out.text, line);
    assert_eq!(out.jobs.len(), 0);
}

#[test]
fn plain_text_line_untouched() {
    let line = b("no urls here at all");
    let out = process_line(&line).unwrap();
    assert_eq!(out.text, line);
    assert_eq!(out.jobs.len(), 0);
}

#[test]
fn single_field_rewritten() {
    let line = b(r#"{"file_url": "https:\/\/files.slack.com\/a.png"}"#);
    let out = process_line(&line).unwrap();
    let expected = r#"{"file_url": "content\/721\/e9d7eee6af01e5d8b13f3791dcf21490f4736.png#https%3A%2F%2Ffiles.slack.com%2Fa.png"}"#;
    assert_eq!(s(&out.text), expected);
    assert_eq!(out.jobs.len(), 1);
    assert_eq!(
        s(&out.jobs[0].cache_path),
        "content/721/e9d7eee6af01e5d8b13f3791dcf21490f4736.png"
    );
    assert_eq!(s(&out.jobs[0].request_url), "https://files.slack.com/a.png");
}

#[test]
fn no_space_after_colon_matches() {
    let line = b(r#"{"file_url":"https:\/\/files.slack.com\/a.png"}"#);
    let out = process_line(&line).unwrap();
    let expected = r#"{"file_url":"content\/721\/e9d7eee6af01e5d8b13f3791dcf21490f4736.png#https%3A%2F%2Ffiles.slack.com%2Fa.png"}"#;
    assert_eq!(s(&out.text), expected);
}

#[test]
fn multi_match_line_reassembly() {
    let line = b(
        r#"{"file_url": "https:\/\/files.slack.com\/a.png", "thumb_80": "https:\/\/files.slack.com\/a_small.png", "media_url": "https:\/\/a.gravatar.com\/avatar.jpeg?s=64"}"#,
    );
    let out = process_line(&line).unwrap();
    let mut expected = String::new();
    expected.push_str(r#"{"file_url": "content\/721\/e9d7eee6af01e5d8b13f3791dcf21490f4736.png#https%3A%2F%2Ffiles.slack.com%2Fa.png", "#);
    expected.push_str(r#""thumb_80": "https:\/\/files.slack.com\/a_small.png", "#);
    expected.push_str(r#""media_url": "content\/6d7\/ea73ea872933494d04cad7c12b2bf1dec5793.jpeg#https%3A%2F%2Fa.gravatar.com%2Favatar.jpeg"}"#);
    assert_eq!(s(&out.text), expected);
    assert_eq!(out.jobs.len(), 2);
    assert_eq!(s(&out.jobs[0].request_url), "https://files.slack.com/a.png");
    assert_eq!(
        s(&out.jobs[1].request_url),
        "https://a.gravatar.com/avatar.jpeg?s=64"
    );
    assert_eq!(
        s(&out.jobs[1].cache_path),
        "content/6d7/ea73ea872933494d04cad7c12b2bf1dec5793.jpeg"
    );
}

#[test]
fn unparseable_url_is_a_parse_error() {
    let mut line = b(r#"{"f": "https:\/\/gravatar.com\/"#);
    line.push(0xFF);
    line.extend_from_slice(b"\"}");
    let err = process_line(&line).unwrap_err();
    assert_eq!(err, ArchiveError::UrlParse);
}

#[test]
fn plain_http_scheme_matches() {
    let line = b(r#"{"f": "http:\/\/gravatar.com\/x.png"}"#);
    let out = process_line(&line).unwrap();
    assert_eq!(out.jobs.len(), 1);
    assert_eq!(s(&out.jobs[0].request_url), "http://gravatar.com/x.png");
}
