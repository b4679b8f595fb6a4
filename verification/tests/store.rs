use ctfsink::db::{choose_metadata, metadata_block, Db};
use ctfsink::info::RequestInfo;
use ctfsink::method::Method;
use ctfsink::request::RequestFile;
use ctfsink::sections::{parse_sections, read_sections, Sections};
use ctfsink::timestamp::Timestamp;

fn record(time: Timestamp, method: &str, path: Option<&str>, is_yaml: bool) -> RequestFile {
    RequestFile {
        time,
        method: Method::from_token(method.to_string()).unwrap(),
        path: path.map(|p| p.to_string()),
        is_yaml,
    }
}

fn ts(year: u16, month: u8, day: u8, hour: u8, minute: u8, second: u8) -> Timestamp {
    Timestamp::from_fields(year, month, day, hour, minute, second).unwrap()
}

#[test]
fn collect_skips_foreign_entries() {
    let names = vec![
        "20240615-12:30:45-GET-|a.yaml".to_string(),
        ".gitignore".to_string(),
        "notes.txt".to_string(),
        "20240615-12:30:46-POST.in".to_string(),
    ];
    let records = Db::collect_records(&names);
    assert_eq!(records.len(), 2);
    assert_eq!(records[0].method.as_str(), "GET");
    assert_eq!(records[1].method.as_str(), "POST");
}

#[test]
fn three_records_sort_newest_first() {
    let t1 = ts(2024, 6, 15, 12, 0, 0);
    let t2 = ts(2024, 6, 15, 12, 0, 1);
    let t3 = ts(2024, 6, 16, 0, 0, 0);
    let files = vec![
        record(t2, "GET", None, true),
        record(t1, "GET", None, true),
        record(t3, "GET", None, true),
    ];
    let sorted = Db::sort_by_time_desc(files);
    assert_eq!(sorted.len(), 3);
    assert_eq!(sorted[0].time, t3);
    assert_eq!(sorted[1].time, t2);
    assert_eq!(sorted[2].time, t1);
}

#[test]
fn keep_zone_valid_keeps_ordinary_times_in_order() {
    let files = vec![
        record(ts(2024, 6, 15, 12, 0, 0), "GET", None, true),
        record(ts(2024, 12, 1, 0, 0, 0), "POST", None, true),
        record(ts(2023, 1, 2, 3, 4, 5), "PUT", None, false),
    ];
    let kept = Db::keep_zone_valid(files);
    assert_eq!(kept.len(), 3);
    assert_eq!(kept[0].method.as_str(), "GET");
    assert_eq!(kept[1].method.as_str(), "POST");
    assert_eq!(kept[2].method.as_str(), "PUT");
}

#[test]
fn listing_flow_end_to_end() {
    let names = vec![
        "20240615-12:00:01-GET-|b.yaml".to_string(),
        "junk".to_string(),
        "20240615-12:00:00-GET-|a.yaml".to_string(),
        "20240616-00:00:00-POST-|c.in".to_string(),
    ];
    let sorted = Db::sort_by_time_desc(Db::keep_zone_valid(Db::collect_records(&names)));
    let paths: Vec<_> = sorted.iter().map(|f| f.path.clone().unwrap()).collect();
    assert_eq!(paths, vec!["/c".to_string(), "/b".to_string(), "/a".to_string()]);
}

#[test]
fn resolve_key_round_trip() {
    let f = record(ts(2024, 6, 15, 12, 30, 45), "GET", Some("/x"), true);
    let token = f.encoded_name();
    assert_eq!(Db::resolve_key(&token), Some(f.file_name()));
}

#[test]
fn resolve_key_rejects_garbage_tokens() {
    assert_eq!(Db::resolve_key("!!!"), None);
}

#[test]
fn resolve_key_rejects_traversal_keys() {
    // A token forged from a traversal path decodes, but the guard refuses it.
    let forged = base64::Engine::encode(
        &base64::engine::general_purpose::URL_SAFE_NO_PAD,
        "../etc/passwd",
    );
    assert_eq!(Db::resolve_key(&forged), None);
    let nested = base64::Engine::encode(
        &base64::engine::general_purpose::URL_SAFE_NO_PAD,
        "a/b",
    );
    assert_eq!(Db::resolve_key(&nested), None);
}

#[test]
fn unknown_key_renders_all_sections_absent() {
    // A syntactically valid token for a record that was never written: the
    // key resolves, the file is missing, and the read yields the sentinel.
    let f = record(ts(2031, 1, 1, 0, 0, 0), "GET", Some("/never"), true);
    let token = f.encoded_name();
    let name = Db::resolve_key(&token).expect("token resolves");
    assert_eq!(name, f.file_name());
    let sections = read_sections(None);
    assert!(sections.headers.is_none());
    assert!(sections.cookies.is_none());
    assert!(sections.query_params.is_none());
    assert!(sections.body.is_none());
}

#[test]
fn absent_sections_constructor() {
    let s = Sections::absent();
    assert!(s.headers.is_none() && s.cookies.is_none());
    assert!(s.query_params.is_none() && s.body.is_none());
}

#[test]
fn plan_add_content_exact() {
    let f = record(ts(2024, 6, 15, 12, 30, 45), "GET", Some("/x"), true);
    let (name, content) = Db::plan_add(&f, "headers: {}\n", "l1\nl2");
    assert_eq!(name, "20240615-12:30:45-GET-|x.yaml");
    assert_eq!(content, "uri: /x\nheaders: {}\nbody: |\n  l1\n  l2");
}

#[test]
fn plan_add_empty_body_has_no_body_block() {
    let f = record(ts(2024, 6, 15, 12, 30, 45), "GET", Some("/x"), true);
    let (_, content) = Db::plan_add(&f, "meta\n", "");
    assert_eq!(content, "uri: /x\nmeta\n");
}

#[test]
fn plan_add_without_path_has_no_uri_line() {
    let f = record(ts(2024, 6, 15, 12, 30, 45), "GET", None, false);
    let (name, content) = Db::plan_add(&f, "meta\n", "");
    assert_eq!(name, "20240615-12:30:45-GET.in");
    assert_eq!(content, "meta\n");
}

#[test]
fn metadata_serializes_structured_text() {
    let info = RequestInfo::from_parts(
        &vec![("host".to_string(), "local".to_string())],
        vec![("a".to_string(), "1".to_string()), ("a".to_string(), "2".to_string())],
    );
    let (meta, ok) = metadata_block(&info);
    assert!(ok);
    assert!(meta.ends_with('\n'));
    assert!(meta.lines().all(|l| !l.starts_with("body:")));
    assert!(meta.contains("headers:"));
    assert!(meta.contains("host: local"));
    assert!(meta.contains("query_params:"));
    assert!(meta.contains("- '1'") || meta.contains("- \"1\"") || meta.contains("- 1"));
}

#[test]
fn forced_serialization_failure_still_writes_marked_fallback() {
    let info = RequestInfo::from_parts(&Vec::new(), Vec::new());
    // Force the failure arm: the serializer's outcome is an argument here.
    let (meta, ok) = choose_metadata(None, "fallback text".to_string());
    assert!(!ok);
    assert_eq!(meta, "fallback text");
    let now = ctfsink::timestamp::capture_now().expect("clock in range");
    let f = RequestFile {
        time: now,
        method: Method::from_token("GET".to_string()).unwrap(),
        path: Some("/x".to_string()),
        is_yaml: ok,
    };
    let (name, content) = Db::plan_add(&f, &meta, "");
    assert!(name.ends_with(".in"), "fallback records carry the non-structured marker");
    assert!(!content.is_empty());
    let _ = info;
}

#[test]
fn stored_file_sections_come_back() {
    let f = record(ts(2024, 6, 15, 12, 30, 45), "GET", Some("/x"), true);
    let meta = "headers:\n  a: b\ncookies: {}\nquery_params: {}\n";
    let (_, content) = Db::plan_add(&f, meta, "hello\nworld");
    let sections = parse_sections(&content);
    assert_eq!(sections.headers.as_deref(), Some("headers:\n  a: b"));
    assert_eq!(sections.cookies.as_deref(), Some("cookies: {}"));
    assert_eq!(sections.query_params.as_deref(), Some("query_params: {}"));
    assert_eq!(sections.body.as_deref(), Some("hello\nworld"));
}

#[test]
fn full_write_read_cycle() {
    let info = RequestInfo::from_parts(
        &vec![
            ("cookie".to_string(), "s=1".to_string()),
            ("host".to_string(), "local".to_string()),
        ],
        vec![("q".to_string(), "v".to_string())],
    );
    let (meta, ok) = metadata_block(&info);
    assert!(ok);
    let f = record(ts(2024, 6, 15, 12, 30, 45), "POST", Some("/hook"), ok);
    let (name, content) = Db::plan_add(&f, &meta, "{\"k\": 1}");
    let parsed = RequestFile::parse_name(&name).expect("name parses");
    assert!(parsed.is_yaml);
    let sections = read_sections(Some(&content));
    let headers = sections.headers.expect("headers section");
    assert!(headers.contains("host: local"));
    let cookies = sections.cookies.expect("cookies section");
    assert!(cookies.contains("s: '1'") || cookies.contains("s: 1"));
    assert_eq!(sections.body.as_deref(), Some("{\"k\": 1}"));
}

#[test]
fn body_embedding_is_lossless() {
    let f = record(ts(2024, 6, 15, 12, 30, 45), "GET", Some("/x"), true);
    for body in ["a\n\nb\n", "one line", "  already indented", "x\n", "\n", ":\nheaders: fake"] {
        let (_, content) = Db::plan_add(&f, "headers: {}\n", body);
        let sections = parse_sections(&content);
        assert_eq!(sections.body.as_deref(), Some(body), "body: {body:?}");
    }
}

#[test]
fn foreign_content_yields_absent_sections() {
    let sections = parse_sections("completely different\n  text");
    assert!(sections.headers.is_none());
    assert!(sections.cookies.is_none());
    assert!(sections.query_params.is_none());
    assert!(sections.body.is_none());
}

#[test]
fn db_holds_its_folder() {
    let db = Db::new("00_requests".to_string());
    assert_eq!(db.folder, "00_requests");
}
