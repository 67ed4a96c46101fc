use authio::config::{parse_unsigned, split_list, Config, ConfigError};

fn build(ttl: &str, port: &str, attrs: &str) -> Result<Config, ConfigError> {
    Config::new(
        "secret".to_string(),
        ttl,
        "ACME".to_string(),
        "ldap://localhost".to_string(),
        "0.0.0.0".to_string(),
        port,
        "DC=example,DC=com".to_string(),
        "(cn={})".to_string(),
        attrs,
    )
}

#[test]
fn settings_are_read() {
    let c = build("3600", "8080", "cn,memberOf,mail").unwrap();
    assert_eq!(c.jwt_expiration_time_seconds, 3600);
    assert_eq!(c.http_port, 8080);
    assert_eq!(c.ad_attrs, vec!["cn".to_string(), "memberOf".to_string(), "mail".to_string()]);
    assert_eq!(c.ad_base_dn, "DC=example,DC=com");
    assert_eq!(c.jwt_company, "ACME");
}

#[test]
fn bad_expiration_is_refused() {
    assert_eq!(build("soon", "8080", "cn").err(), Some(ConfigError::InvalidExpiration));
    assert_eq!(build("", "8080", "cn").err(), Some(ConfigError::InvalidExpiration));
    assert_eq!(build("-5", "8080", "cn").err(), Some(ConfigError::InvalidExpiration));
}

#[test]
fn bad_port_is_refused() {
    assert_eq!(build("60", "65536", "cn").err(), Some(ConfigError::InvalidPort));
    assert_eq!(build("60", "http", "cn").err(), Some(ConfigError::InvalidPort));
    assert_eq!(build("60", "65535", "cn").unwrap().http_port, 65535);
}

#[test]
fn unsigned_numbers_parse_like_std() {
    assert_eq!(parse_unsigned("0", u64::MAX), Some(0));
    assert_eq!(parse_unsigned("+42", u64::MAX), Some(42));
    assert_eq!(parse_unsigned("+", u64::MAX), None);
    assert_eq!(parse_unsigned("18446744073709551615", u64::MAX), Some(u64::MAX));
    assert_eq!(parse_unsigned("18446744073709551616", u64::MAX), None);
    assert_eq!(parse_unsigned("12a", u64::MAX), None);
    assert_eq!(parse_unsigned("256", 255), None);
    assert_eq!(parse_unsigned("255", 255), Some(255));
}

#[test]
fn lists_split_at_commas() {
    assert_eq!(split_list("a,b"), vec!["a".to_string(), "b".to_string()]);
    assert_eq!(split_list(""), vec!["".to_string()]);
    assert_eq!(split_list("a,,b,"), vec!["a".to_string(), "".to_string(), "b".to_string(), "".to_string()]);
}
