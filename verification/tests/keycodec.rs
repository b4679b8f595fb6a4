use ctfsink::method::Method;
use ctfsink::request::RequestFile;
use ctfsink::timestamp::Timestamp;

fn sample() -> RequestFile {
    RequestFile {
        time: Timestamp::from_fields(2024, 6, 15, 12, 30, 45).unwrap(),
        method: Method::from_token("GET".to_string()).unwrap(),
        path: Some("/foo/bar".to_string()),
        is_yaml: true,
    }
}

#[test]
fn token_round_trips_to_name() {
    let f = sample();
    let name = f.file_name();
    let token = f.encoded_name();
    assert_ne!(token, name, "the token must actually be encoded");
    assert_eq!(RequestFile::decode_name(&token), Some(name));
}

#[test]
fn token_is_url_safe() {
    let f = sample();
    let token = f.encoded_name();
    assert!(token.chars().all(|c| c.is_ascii_alphanumeric() || c == '-' || c == '_'));
}

#[test]
fn decode_rejects_malformed_tokens() {
    assert_eq!(RequestFile::decode_name("!!!"), None);
    assert_eq!(RequestFile::decode_name("a"), None);
}

#[test]
fn decode_rejects_padded_tokens() {
    // "aGk=" is standard padded base64 for "hi"; this codec is unpadded.
    assert_eq!(RequestFile::decode_name("aGk="), None);
    assert_eq!(RequestFile::decode_name("aGk"), Some("hi".to_string()));
}

#[test]
fn empty_token_decodes_to_empty_name() {
    assert_eq!(RequestFile::decode_name(""), Some(String::new()));
}
