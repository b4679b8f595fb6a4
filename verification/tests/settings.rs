use ctfsink::config::{
    default_port_dashboard, default_port_sink, default_requests_folder, Cli, Settings,
};
use ctfsink::templates::{EmbeddedFile, EmbeddedTemplates, StaticDir};
use ctfsink::timestamp::{days_in_month_exec, Timestamp};

#[test]
fn defaults() {
    assert_eq!(default_port_sink(), 5000);
    assert_eq!(default_port_dashboard(), 5001);
    assert_eq!(default_requests_folder(), "00_requests");
}

#[test]
fn from_cli_all_absent_takes_defaults() {
    let s = Settings::from_cli(Cli { port_sink: None, port_dashboard: None, requests_folder: None });
    assert_eq!(s.port_sink, 5000);
    assert_eq!(s.port_dashboard, 5001);
    assert_eq!(s.requests_folder, "00_requests");
}

#[test]
fn from_cli_given_values_win() {
    let s = Settings::from_cli(Cli {
        port_sink: Some(8080),
        port_dashboard: None,
        requests_folder: Some("captures".to_string()),
    });
    assert_eq!(s.port_sink, 8080);
    assert_eq!(s.port_dashboard, 5001);
    assert_eq!(s.requests_folder, "captures");
}

#[test]
fn timestamp_fields_validated() {
    assert!(Timestamp::from_fields(2024, 2, 29, 0, 0, 0).is_some());
    assert!(Timestamp::from_fields(2023, 2, 29, 0, 0, 0).is_none());
    assert!(Timestamp::from_fields(2024, 0, 1, 0, 0, 0).is_none());
    assert!(Timestamp::from_fields(2024, 13, 1, 0, 0, 0).is_none());
    assert!(Timestamp::from_fields(2024, 4, 31, 0, 0, 0).is_none());
    assert!(Timestamp::from_fields(2024, 1, 1, 24, 0, 0).is_none());
    assert!(Timestamp::from_fields(2024, 1, 1, 0, 60, 0).is_none());
    assert!(Timestamp::from_fields(0, 1, 1, 0, 0, 0).is_none());
    assert!(Timestamp::from_fields(9999, 12, 31, 23, 59, 59).is_some());
}

#[test]
fn month_lengths() {
    assert_eq!(days_in_month_exec(2024, 2), 29);
    assert_eq!(days_in_month_exec(2023, 2), 28);
    assert_eq!(days_in_month_exec(1900, 2), 28);
    assert_eq!(days_in_month_exec(2000, 2), 29);
    assert_eq!(days_in_month_exec(2024, 4), 30);
    assert_eq!(days_in_month_exec(2024, 12), 31);
}

#[test]
fn clock_yields_a_valid_timestamp() {
    let now = ctfsink::timestamp::capture_now().expect("clock in range");
    assert!((1..=12).contains(&now.month));
    assert!((1..=31).contains(&now.day));
    assert!(now.hour <= 23 && now.minute <= 59 && now.second <= 59);
    assert_eq!(
        Timestamp::from_fields(now.year, now.month, now.day, now.hour, now.minute, now.second),
        Some(now)
    );
}

#[test]
fn timestamp_display() {
    let t = Timestamp::from_fields(987, 1, 5, 7, 8, 9).unwrap();
    assert_eq!(t.date_text(), "0987/01/05");
    assert_eq!(t.time_text(), "07:08:09");
}

#[test]
fn timestamp_keys_order_chronologically() {
    let a = Timestamp::from_fields(2024, 6, 15, 12, 30, 45).unwrap();
    let b = Timestamp::from_fields(2024, 6, 15, 12, 30, 46).unwrap();
    let c = Timestamp::from_fields(2025, 1, 1, 0, 0, 0).unwrap();
    assert!(a.key() < b.key());
    assert!(b.key() < c.key());
    assert_eq!(a.key(), a.key());
}

#[test]
fn embedded_file_handle_keeps_its_path() {
    let f: EmbeddedFile<EmbeddedTemplates, &str> = EmbeddedFile::get("index.html");
    assert_eq!(f.path, "index.html");
    let s: EmbeddedFile<StaticDir, String> = EmbeddedFile::get("app.css".to_string());
    assert_eq!(s.path, "app.css");
}
