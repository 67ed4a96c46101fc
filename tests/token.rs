use authio::config::Config;
use authio::handlers::{extract_token, handle_validation_result, missing_header_reply};
use authio::models::claims_reader::read_claims;
use authio::models::jwt::{
    check_expiry, claims_of_accepted, issue_token, issue_token_at, validate_token,
    validate_token_at, write_claims, JWTClaim, ValidationError,
};
use authio::models::permission::{Access, Permission};

fn config() -> Config {
    Config {
        jwt_secret_key: "a secret of the test".to_string(),
        jwt_expiration_time_seconds: 3600,
        ldap_url: "ldap://localhost".to_string(),
        http_bind_address: "127.0.0.1".to_string(),
        http_port: 8080,
        ad_base_dn: "OU=Users,DC=example,DC=com".to_string(),
        ad_filter_format: "(cn={})".to_string(),
        ad_attrs: vec![],
        jwt_company: "Example".to_string(),
    }
}

fn perm(name: &str) -> Permission {
    Permission::new(name.to_string(), "CN=jsmith,OU=Users".to_string(), Access::READ)
}

fn now() -> i64 {
    std::time::SystemTime::now().duration_since(std::time::UNIX_EPOCH).unwrap().as_secs() as i64
}

#[test]
fn claims_are_written_as_json() {
    let c = JWTClaim {
        sub: "jsmith".to_string(),
        company: "ACME".to_string(),
        exp: 1700000000,
        permissions: vec![
            Permission::new("Engineers".to_string(), "CN=jsmith".to_string(), Access::READ),
            Permission::new("Ops".to_string(), "CN=jsmith".to_string(), Access::EXECUTE),
        ],
    };
    assert_eq!(
        write_claims(&c),
        "{\"sub\":\"jsmith\",\"company\":\"ACME\",\"exp\":1700000000,\"permissions\":[{\"name\":\"Engineers\",\"description\":\"CN=jsmith\",\"access_type\":\"READ\"},{\"name\":\"Ops\",\"description\":\"CN=jsmith\",\"access_type\":\"EXECUTE\"}]}"
    );
}

#[test]
fn claims_escape_special_characters() {
    let c = JWTClaim {
        sub: "a\"b\\c\nd\u{1}é".to_string(),
        company: String::new(),
        exp: 0,
        permissions: vec![],
    };
    let text = write_claims(&c);
    assert_eq!(text, "{\"sub\":\"a\\\"b\\\\c\\nd\\u0001é\",\"company\":\"\",\"exp\":0,\"permissions\":[]}");
    let value: serde_json::Value = serde_json::from_str(&text).unwrap();
    assert_eq!(value["sub"], "a\"b\\c\nd\u{1}é");
}

#[test]
fn issued_token_validates_to_its_claims() {
    let cfg = config();
    let token = issue_token("jsmith", vec![perm("Engineers"), perm("Ops")], &cfg).unwrap();
    let claims = validate_token(&token, &cfg).unwrap();
    assert_eq!(claims.sub, "jsmith");
    assert_eq!(claims.company, "Example");
    assert_eq!(claims.permissions, vec![perm("Engineers"), perm("Ops")]);
    let exp = claims.exp as i64;
    assert!(exp >= now() + 3600 - 5 && exp <= now() + 3600 + 5);
}

#[test]
fn validating_twice_gives_same_claims() {
    let cfg = config();
    let token = issue_token("jsmith", vec![perm("Engineers")], &cfg).unwrap();
    let first = validate_token(&token, &cfg).unwrap();
    let second = validate_token(&token, &cfg).unwrap();
    assert_eq!(first, second);
}

#[test]
fn token_issued_at_fixed_time_has_exact_expiry() {
    let cfg = config();
    let t = now();
    let token = issue_token_at("jsmith", vec![], t, &cfg).unwrap();
    let claims = validate_token(&token, &cfg).unwrap();
    assert_eq!(claims.exp, (t + 3600) as u64);
    assert_eq!(claims.sub, "jsmith");
    assert!(claims.permissions.is_empty());
}

#[test]
fn expired_token_is_refused_as_expired() {
    let cfg = config();
    let token = issue_token_at("jsmith", vec![], now() - 3600 - 1000, &cfg).unwrap();
    assert_eq!(validate_token(&token, &cfg), Err(ValidationError::ExpiredSignature));
}

#[test]
fn token_one_second_before_expiry_is_accepted() {
    let cfg = config();
    let token = issue_token_at("jsmith", vec![], now() - 3600 + 1, &cfg).unwrap();
    assert!(validate_token(&token, &cfg).is_ok());
}

#[test]
fn token_with_other_secret_is_refused() {
    let cfg = config();
    let token = issue_token("jsmith", vec![], &cfg).unwrap();
    let mut other = config();
    other.jwt_secret_key = "another secret".to_string();
    assert_eq!(validate_token(&token, &other), Err(ValidationError::InvalidSignature));
}

#[test]
fn malformed_token_is_refused() {
    let cfg = config();
    assert_eq!(validate_token("not a token", &cfg), Err(ValidationError::InvalidToken));
}

#[test]
fn expiry_outside_range_is_brought_to_its_edge() {
    let cfg = config();
    let early = issue_token_at("jsmith", vec![], -4000, &cfg).unwrap();
    assert_eq!(validate_token_at(&early, &cfg, -4000).unwrap().exp, 0);
    assert_eq!(validate_token(&early, &cfg), Err(ValidationError::ExpiredSignature));
    let mut long = config();
    long.jwt_expiration_time_seconds = u64::MAX;
    let forever = issue_token_at("jsmith", vec![], 1, &long).unwrap();
    assert_eq!(validate_token(&forever, &long).unwrap().exp, u64::MAX);
    let edge = issue_token_at("jsmith", vec![], 0, &long).unwrap();
    assert_eq!(validate_token(&edge, &long).unwrap().exp, u64::MAX);
}

#[test]
fn expiry_is_checked_with_leeway() {
    let cfg = config();
    let token = issue_token_at("jsmith", vec![perm("Engineers")], 1000, &cfg).unwrap();
    let claims = validate_token_at(&token, &cfg, 4599).unwrap();
    assert_eq!(claims.exp, 4600);
    assert_eq!(claims.permissions, vec![perm("Engineers")]);
    assert!(validate_token_at(&token, &cfg, 4660).is_ok());
    assert_eq!(validate_token_at(&token, &cfg, 4661), Err(ValidationError::ExpiredSignature));
}

#[test]
fn expiry_check_passes_refusals_through() {
    assert_eq!(check_expiry(Err(ValidationError::InvalidSignature), 0), Err(ValidationError::InvalidSignature));
    let c = JWTClaim { sub: "s".to_string(), company: "c".to_string(), exp: 100, permissions: vec![] };
    assert_eq!(check_expiry(Ok(c), 161), Err(ValidationError::ExpiredSignature));
}

#[test]
fn bearer_prefix_and_space_are_removed() {
    assert_eq!(extract_token("Bearer abc.def.ghi "), "abc.def.ghi");
    assert_eq!(extract_token("Bearer Bearer xyz"), "xyz");
    assert_eq!(extract_token("  token  "), "token");
    assert_eq!(extract_token("Bearer"), "Bearer");
    assert_eq!(extract_token("Bearer \u{3000}tok\u{a0}\n"), "tok");
    assert_eq!(extract_token("Bearer  \t "), "");
}

#[test]
fn validation_results_map_to_replies() {
    let ok: Result<(), ValidationError> = Ok(());
    assert_eq!(handle_validation_result(&ok), (200, "Token valid".to_string()));
    let cases = [
        (ValidationError::InvalidToken, "Invalid token"),
        (ValidationError::InvalidKeyFormat, "Invalid key format"),
        (ValidationError::ExpiredSignature, "Token has expired"),
        (ValidationError::InvalidIssuer, "Invalid issuer"),
        (ValidationError::InvalidSubject, "Invalid subject"),
        (ValidationError::InvalidAudience, "Invalid audience"),
        (ValidationError::InvalidSignature, "Invalid signature"),
        (ValidationError::InvalidAlgorithm, "Invalid algorithm"),
        (ValidationError::Invalid, "Invalid request"),
    ];
    for (e, msg) in cases {
        let r: Result<(), ValidationError> = Err(e);
        assert_eq!(handle_validation_result(&r), (401, msg.to_string()));
    }
    assert_eq!(missing_header_reply(), (401, "No authorization header found".to_string()));
}

#[test]
fn written_claims_read_back() {
    let c = JWTClaim {
        sub: "a\"b\\c\nd\u{1}\u{1f}\té".to_string(),
        company: "ACME, Inc.".to_string(),
        exp: u64::MAX,
        permissions: vec![
            Permission::new("x".to_string(), "{\"name\":".to_string(), Access::WRITE),
            Permission::new(String::new(), "]}".to_string(), Access::EXECUTE),
            perm("Engineers"),
        ],
    };
    let text = write_claims(&c);
    assert_eq!(read_claims(&text), Some(c));
}

#[test]
fn claims_in_other_shapes_are_not_read() {
    let good = "{\"sub\":\"s\",\"company\":\"c\",\"exp\":10,\"permissions\":[]}";
    assert!(read_claims(good).is_some());
    assert!(read_claims("{\"sub\": \"s\",\"company\":\"c\",\"exp\":10,\"permissions\":[]}").is_none());
    assert!(read_claims("{\"sub\":\"s\",\"company\":\"c\",\"exp\":010,\"permissions\":[]}").is_none());
    assert!(read_claims("{\"sub\":\"\\u0041\",\"company\":\"c\",\"exp\":10,\"permissions\":[]}").is_none());
    assert!(read_claims("{\"sub\":\"s\",\"company\":\"c\",\"exp\":18446744073709551616,\"permissions\":[]}").is_none());
    assert!(read_claims("{\"sub\":\"s\",\"company\":\"c\",\"exp\":10,\"permissions\":[]} ").is_none());
    assert!(read_claims("").is_none());
}

#[test]
fn accepted_text_becomes_claims_and_refusals_pass_through() {
    let text = "{\"sub\":\"s\",\"company\":\"c\",\"exp\":10,\"permissions\":[{\"name\":\"n\",\"description\":\"d\",\"access_type\":\"READ\"}]}";
    let c = claims_of_accepted(Ok(text.to_string())).unwrap();
    assert_eq!(c.sub, "s");
    assert_eq!(c.exp, 10);
    assert_eq!(c.permissions[0].name, "n");
    assert_eq!(claims_of_accepted(Ok("[]".to_string())), Err(ValidationError::Invalid));
    assert_eq!(
        claims_of_accepted(Err(ValidationError::ExpiredSignature)),
        Err(ValidationError::ExpiredSignature)
    );
}
