use link_cache::cache::{after_create, CacheAction, CreateOutcome};
use link_cache::resolve::resolve;
use link_cache::ArchiveError;

fn b(s: &str) -> Vec<u8> {
    s.as_bytes().to_vec()
}

fn s(v: &[u8]) -> String {
    String::from_utf8(v.to_vec()).unwrap()
}

#[test]
fn resolver_is_deterministic() {
    let raw = b(r"https:\/\/files.slack.com\/a.png");
    let first = resolve(&raw).unwrap();
    let second = resolve(&raw).unwrap();
    assert_eq!(first.fragment, second.fragment);
    assert_eq!(first.cache_path, second.cache_path);
    assert_eq!(first.request_url, second.request_url);
}

#[test]
fn query_does_not_change_cache_path() {
    let with_query = resolve(&b(r"https:\/\/files.slack.com\/a.png?w=800&h=600")).unwrap();
    let without = resolve(&b(r"https:\/\/files.slack.com\/a.png")).unwrap();
    assert_eq!(with_query.cache_path, without.cache_path);
    assert_eq!(with_query.fragment, without.fragment);
    assert_eq!(
        s(&with_query.request_url),
        "https://files.slack.com/a.png?w=800&h=600"
    );
    assert_eq!(s(&without.request_url), "https://files.slack.com/a.png");
}

#[test]
fn fragment_is_dropped_from_request() {
    let r = resolve(&b(r"https:\/\/files.slack.com\/a.png?x=1#section")).unwrap();
    assert_eq!(s(&r.request_url), "https://files.slack.com/a.png?x=1");
    assert_eq!(
        s(&r.cache_path),
        "content/721/e9d7eee6af01e5d8b13f3791dcf21490f4736.png"
    );
}

#[test]
fn cache_path_shape() {
    let r = resolve(&b(r"https:\/\/files.slack.com\/a.png")).unwrap();
    assert_eq!(
        s(&r.cache_path),
        "content/721/e9d7eee6af01e5d8b13f3791dcf21490f4736.png"
    );
}

#[test]
fn fragment_shape() {
    let r = resolve(&b(r"https:\/\/slack-edge.com\/img.jpeg")).unwrap();
    let mut expected = String::new();
    expected.push_str("\"content\\/af6\\/5c23443827488c8821182f148f228a43746e1.jpeg");
    expected.push_str("#https%3A%2F%2Fslack-edge.com%2Fimg.jpeg\"");
    assert_eq!(s(&r.fragment), expected);
}

#[test]
fn path_without_extension_gets_none() {
    let r = resolve(&b(r"https:\/\/files.slack.com\/doc")).unwrap();
    assert_eq!(
        s(&r.cache_path),
        "content/a4a/cccdcff89f6b7f08101fd454daeba3c9f2a1e"
    );
}

#[test]
fn long_extension_is_dropped_and_short_kept() {
    let r = resolve(&b(r"https:\/\/files.slack.com\/archive.tar.gz")).unwrap();
    assert_eq!(
        s(&r.cache_path),
        "content/320/39e94c7867cfde54f266257809221233fd760.gz"
    );
    let long = resolve(&b(r"https:\/\/files.slack.com\/page.responsive")).unwrap();
    assert!(!s(&long.cache_path).contains('.'), "{}", s(&long.cache_path));
}

#[test]
fn hidden_file_has_no_extension() {
    let r = resolve(&b(r"https:\/\/files.slack.com\/.hidden")).unwrap();
    let path = s(&r.cache_path);
    assert!(!path[8..].contains('.'), "{}", path);
}

#[test]
fn invalid_url_is_rejected() {
    let err = resolve(&b("not a url at all")).unwrap_err();
    assert_eq!(err, ArchiveError::UrlParse);
}

#[test]
fn created_outcome_downloads() {
    assert_eq!(
        after_create(CreateOutcome::Created).unwrap(),
        CacheAction::Download
    );
}

#[test]
fn already_exists_outcome_skips() {
    assert_eq!(
        after_create(CreateOutcome::AlreadyExists).unwrap(),
        CacheAction::Skip
    );
}

#[test]
fn other_create_failure_is_fatal() {
    assert_eq!(
        after_create(CreateOutcome::Failed).unwrap_err(),
        ArchiveError::FileSystem
    );
}
