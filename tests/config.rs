use mikan_proxy::config::{normalize_token, ConfigError, TokenValue};
use mikan_proxy::{Config, Log, LogStyle};

#[test]
fn tokens_are_normalized_to_text() {
    assert_eq!(normalize_token(TokenValue::Int(-42)), Some(b"-42".to_vec()));
    assert_eq!(normalize_token(TokenValue::Int(i64::MIN)), Some(i64::MIN.to_string().into_bytes()));
    assert_eq!(normalize_token(TokenValue::UInt(u64::MAX)), Some(u64::MAX.to_string().into_bytes()));
    assert_eq!(normalize_token(TokenValue::UInt(0)), Some(b"0".to_vec()));
    assert_eq!(normalize_token(TokenValue::Bool(true)), Some(b"true".to_vec()));
    assert_eq!(normalize_token(TokenValue::Text(b"s3".to_vec())), Some(b"s3".to_vec()));
    assert_eq!(normalize_token(TokenValue::Missing), None);
}

#[test]
fn log_style_words() {
    assert_eq!(LogStyle::parse("ALWAYS"), Some(LogStyle::Always));
    assert_eq!(LogStyle::parse("Never"), Some(LogStyle::Never));
    assert_eq!(LogStyle::parse("auto"), Some(LogStyle::Auto));
    assert_eq!(LogStyle::parse("sometimes"), None);
    assert!(LogStyle::Always.is_color(false));
    assert!(!LogStyle::Never.is_color(true));
    assert!(LogStyle::Auto.is_color(true));
}

#[test]
fn defaults() {
    let log = Log::default();
    assert_eq!(log.level, "mikan=info");
    assert_eq!(log.style, LogStyle::Auto);
    let c = Config::default();
    assert_eq!(c.addr, b"127.0.0.1:3030".to_vec());
    assert!(c.url.is_empty());
    assert!(c.token.is_none());
}

#[test]
fn public_url_is_derived_or_checked() {
    let c = Config::default().finish().ok().unwrap();
    assert_eq!(c.url, b"http://127.0.0.1:3030".to_vec());
    let mut bad = Config::default();
    bad.url = b"not a url".to_vec();
    assert!(matches!(bad.finish(), Err(ConfigError::InvalidUrl)));
    let mut good = Config::default();
    good.url = b"https://proxy.example.com".to_vec();
    assert_eq!(good.finish().ok().unwrap().url, b"https://proxy.example.com".to_vec());
}
