use ctfsink::method::Method;
use ctfsink::request::RequestFile;
use ctfsink::timestamp::Timestamp;

fn ts(year: u16, month: u8, day: u8, hour: u8, minute: u8, second: u8) -> Timestamp {
    Timestamp::from_fields(year, month, day, hour, minute, second).expect("valid timestamp")
}

fn record(time: Timestamp, method: &str, path: Option<&str>, is_yaml: bool) -> RequestFile {
    RequestFile {
        time,
        method: Method::from_token(method.to_string()).expect("valid method"),
        path: path.map(|p| p.to_string()),
        is_yaml,
    }
}

#[test]
fn name_with_path() {
    let f = record(ts(2024, 6, 15, 12, 30, 45), "GET", Some("/foo/bar"), true);
    assert_eq!(f.file_name(), "20240615-12:30:45-GET-|foo|bar.yaml");
}

#[test]
fn name_without_path() {
    let f = record(ts(2024, 1, 2, 3, 4, 5), "POST", None, false);
    assert_eq!(f.file_name(), "20240102-03:04:05-POST.in");
}

#[test]
fn round_trip_with_path() {
    let f = record(ts(2024, 6, 15, 12, 30, 45), "GET", Some("/foo/bar"), true);
    let parsed = RequestFile::parse_name(&f.file_name()).expect("parses back");
    assert_eq!(parsed.time, f.time);
    assert_eq!(parsed.method.as_str(), "GET");
    assert_eq!(parsed.path.as_deref(), Some("/foo/bar"));
    assert!(parsed.is_yaml);
}

#[test]
fn round_trip_without_path() {
    let f = record(ts(1999, 12, 31, 23, 59, 59), "DELETE", None, false);
    let parsed = RequestFile::parse_name(&f.file_name()).expect("parses back");
    assert_eq!(parsed.time, f.time);
    assert_eq!(parsed.method.as_str(), "DELETE");
    assert_eq!(parsed.path, None);
    assert!(!parsed.is_yaml);
}

#[test]
fn round_trip_path_with_dots_and_dashes() {
    let f = record(ts(2024, 2, 29, 0, 0, 0), "PUT", Some("/a-b/c.d"), true);
    let parsed = RequestFile::parse_name(&f.file_name()).expect("parses back");
    assert_eq!(parsed.path.as_deref(), Some("/a-b/c.d"));
    assert_eq!(parsed.method.as_str(), "PUT");
}

#[test]
fn round_trip_empty_path() {
    let f = record(ts(2024, 6, 15, 12, 30, 45), "GET", Some(""), true);
    let parsed = RequestFile::parse_name(&f.file_name()).expect("parses back");
    assert_eq!(parsed.path.as_deref(), Some(""));
}

#[test]
fn from_name_accepts_ordinary_times() {
    let f = record(ts(2024, 6, 15, 12, 30, 45), "GET", Some("/x"), true);
    let parsed = RequestFile::from_name(&f.file_name()).expect("zone accepts");
    assert_eq!(parsed.time, f.time);
}

#[test]
fn parse_rejects_missing_separators() {
    assert!(RequestFile::parse_name("junk").is_err());
    assert!(RequestFile::parse_name("20240615").is_err());
    assert!(RequestFile::parse_name("20240615-12:30:45").is_err());
    assert!(RequestFile::parse_name("").is_err());
}

#[test]
fn parse_rejects_bad_method() {
    assert!(RequestFile::parse_name("20240615-12:30:45-.yaml").is_err());
    assert!(RequestFile::parse_name("20240615-12:30:45-G@T.yaml").is_err());
}

#[test]
fn parse_rejects_bad_date() {
    assert!(RequestFile::parse_name("20241315-12:30:45-GET.yaml").is_err());
    assert!(RequestFile::parse_name("20240230-12:30:45-GET.yaml").is_err());
    assert!(RequestFile::parse_name("2024061x-12:30:45-GET.yaml").is_err());
    assert!(RequestFile::parse_name("00000615-12:30:45-GET.yaml").is_err());
}

#[test]
fn parse_rejects_bad_time() {
    assert!(RequestFile::parse_name("20240615-24:30:45-GET.yaml").is_err());
    assert!(RequestFile::parse_name("20240615-12:60:45-GET.yaml").is_err());
    assert!(RequestFile::parse_name("20240615-123045xx-GET.yaml").is_err());
}

#[test]
fn parse_accepts_leap_day_only_in_leap_years() {
    assert!(RequestFile::parse_name("20240229-00:00:00-GET.yaml").is_ok());
    assert!(RequestFile::parse_name("20230229-00:00:00-GET.yaml").is_err());
    assert!(RequestFile::parse_name("20000229-00:00:00-GET.yaml").is_ok());
    assert!(RequestFile::parse_name("19000228-00:00:00-GET.yaml").is_ok());
}

#[test]
fn parse_unknown_extension_is_not_structured() {
    let parsed = RequestFile::parse_name("20240615-12:30:45-GET.xyz").expect("parses");
    assert!(!parsed.is_yaml);
}

#[test]
fn names_order_lexically_as_chronologically() {
    let early = record(ts(2024, 6, 15, 12, 30, 45), "GET", None, true);
    let later = record(ts(2024, 6, 15, 12, 30, 46), "GET", None, true);
    let next_day = record(ts(2024, 6, 16, 0, 0, 0), "GET", None, true);
    assert!(early.file_name() < later.file_name());
    assert!(later.file_name() < next_day.file_name());
}

#[test]
fn to_tuple_row() {
    let f = record(ts(2024, 6, 15, 12, 30, 45), "POST", Some("/hook"), true);
    let (date, time, method, shown, color, key) = f.to_tuple();
    assert_eq!(date, "2024/06/15");
    assert_eq!(time, "12:30:45");
    assert_eq!(method, "POST");
    assert_eq!(shown, "/hook");
    assert_eq!(color, "bg-danger");
    assert_eq!(key, f.encoded_name());
}

#[test]
fn to_tuple_colors() {
    let t = ts(2024, 6, 15, 12, 30, 45);
    for (m, c) in [
        ("GET", "bg-primary"),
        ("POST", "bg-danger"),
        ("PATCH", "bg-success"),
        ("PUT", "bg-info"),
        ("OPTIONS", "bg-warning"),
        ("DELETE", "bg-secondary"),
    ] {
        let f = record(t, m, None, true);
        assert_eq!(f.to_tuple().4, c);
    }
}

#[test]
fn to_tuple_truncates_long_paths() {
    let long = "/abcdefghijklmnopqrstuvwxyz0123456789";
    let f = record(ts(2024, 6, 15, 12, 30, 45), "GET", Some(long), true);
    let shown = f.to_tuple().3;
    let expected: String = long.chars().take(32).chain("...".chars()).collect();
    assert_eq!(shown, expected);
}

#[test]
fn method_tokens_validated() {
    assert!(Method::from_token("GET".to_string()).is_some());
    assert!(Method::from_token("custom".to_string()).is_some());
    assert!(Method::from_token("".to_string()).is_none());
    assert!(Method::from_token("G T".to_string()).is_none());
    assert!(Method::from_token("G/T".to_string()).is_none());
}
