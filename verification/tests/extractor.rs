use ctfsink::info::RequestInfo;

fn pairs(ps: &[(&str, &str)]) -> Vec<(String, String)> {
    ps.iter().map(|(k, v)| (k.to_string(), v.to_string())).collect()
}

fn lookup<'a>(m: &'a [(String, String)], k: &str) -> Option<&'a str> {
    m.iter().find(|(n, _)| n == k).map(|(_, v)| v.as_str())
}

#[test]
fn query_grouping_preserves_every_occurrence_in_order() {
    let info = RequestInfo::from_parts(
        &Vec::new(),
        pairs(&[("a", "1"), ("b", "x"), ("a", "2")]),
    );
    assert_eq!(info.query_params.len(), 2);
    let a = info.query_params.iter().find(|(k, _)| k == "a").expect("key a");
    assert_eq!(a.1, vec!["1".to_string(), "2".to_string()]);
    let b = info.query_params.iter().find(|(k, _)| k == "b").expect("key b");
    assert_eq!(b.1, vec!["x".to_string()]);
}

#[test]
fn cookie_isolation() {
    let info = RequestInfo::from_parts(
        &pairs(&[
            ("cookie", "session=abc; theme=dark"),
            ("content-type", "text/plain"),
        ]),
        Vec::new(),
    );
    assert_eq!(info.cookies.len(), 2);
    assert_eq!(lookup(&info.cookies, "session"), Some("abc"));
    assert_eq!(lookup(&info.cookies, "theme"), Some("dark"));
    assert!(info.headers.iter().all(|(n, _)| !n.eq_ignore_ascii_case("cookie")));
    assert_eq!(lookup(&info.headers, "content-type"), Some("text/plain"));
}

#[test]
fn cookie_header_excluded_case_insensitively() {
    let info = RequestInfo::from_parts(
        &pairs(&[("COOKIE", "a=1"), ("Cookie", "b=2"), ("host", "local")]),
        Vec::new(),
    );
    assert!(info.headers.iter().all(|(n, _)| !n.eq_ignore_ascii_case("cookie")));
    assert_eq!(lookup(&info.cookies, "a"), Some("1"));
    assert_eq!(lookup(&info.cookies, "b"), Some("2"));
    assert_eq!(lookup(&info.headers, "host"), Some("local"));
}

#[test]
fn duplicate_headers_last_wins() {
    let info = RequestInfo::from_parts(
        &pairs(&[("x-tag", "one"), ("x-tag", "two")]),
        Vec::new(),
    );
    assert_eq!(info.headers.len(), 1);
    assert_eq!(lookup(&info.headers, "x-tag"), Some("two"));
}

#[test]
fn duplicate_cookies_last_wins() {
    let info = RequestInfo::from_parts(
        &pairs(&[("cookie", "k=1; k=2")]),
        Vec::new(),
    );
    assert_eq!(info.cookies.len(), 1);
    assert_eq!(lookup(&info.cookies, "k"), Some("2"));
}

#[test]
fn cookie_values_are_trimmed_and_decoded() {
    let info = RequestInfo::from_parts(
        &pairs(&[("cookie", "q=\"quoted\"; e=a%20b")]),
        Vec::new(),
    );
    assert_eq!(lookup(&info.cookies, "q"), Some("quoted"));
    assert_eq!(lookup(&info.cookies, "e"), Some("a b"));
}

#[test]
fn unparseable_cookie_pieces_are_skipped() {
    let info = RequestInfo::from_parts(
        &pairs(&[("cookie", "good=1; nonsense; other=2")]),
        Vec::new(),
    );
    assert_eq!(lookup(&info.cookies, "good"), Some("1"));
    assert_eq!(lookup(&info.cookies, "other"), Some("2"));
    assert_eq!(info.cookies.len(), 2);
}

#[test]
fn empty_input_yields_empty_snapshot() {
    let info = RequestInfo::from_parts(&Vec::new(), Vec::new());
    assert!(info.headers.is_empty());
    assert!(info.cookies.is_empty());
    assert!(info.query_params.is_empty());
}
