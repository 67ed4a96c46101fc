use authio::config::Config;
use authio::connectors::ldap::{Attribute, BindReply, DirectoryEntry, LinkState, SearchReply};
use authio::handlers::login_response;
use authio::login::{LoginAction, LoginEvent, LoginFlow, LoginOutcome, LoginPhase, LoginResult};
use authio::models::jwt::validate_token;
use authio::models::permission::Access;

fn config() -> Config {
    Config {
        jwt_secret_key: "a secret of the test".to_string(),
        jwt_expiration_time_seconds: 3600,
        ldap_url: "ldap://directory.example.com:389".to_string(),
        http_bind_address: "127.0.0.1".to_string(),
        http_port: 8080,
        ad_base_dn: "OU=Users,DC=example,DC=com".to_string(),
        ad_filter_format: "(&(objectClass=person)(cn={}))".to_string(),
        ad_attrs: vec!["memberOf".to_string()],
        jwt_company: "Example".to_string(),
    }
}

fn jsmith_entry() -> DirectoryEntry {
    DirectoryEntry {
        dn: "CN=jsmith,OU=Users,DC=example,DC=com".to_string(),
        attrs: vec![Attribute {
            name: "memberOf".to_string(),
            values: vec!["CN=Engineers,OU=Groups,DC=example,DC=com".to_string()],
        }],
    }
}

#[test]
fn login_with_correct_password_issues_token() {
    let cfg = config();
    let mut flow = LoginFlow::new(&cfg, "jsmith", "correct");
    let mut unbinds = 0;
    match flow.start() {
        LoginAction::Connect { url } => assert_eq!(url, "ldap://directory.example.com:389"),
        _ => panic!("expected a connection first"),
    }
    match flow.step(LoginEvent::Opened { ok: true }) {
        LoginAction::Bind { dn, password } => {
            assert_eq!(dn, "CN=jsmith,OU=Users,DC=example,DC=com");
            assert_eq!(password, "correct");
        }
        _ => panic!("expected a bind"),
    }
    match flow.step(LoginEvent::BindAnswered { reply: BindReply::Completed { rc: 0 } }) {
        LoginAction::Search { request } => {
            assert_eq!(request.base, "OU=Users,DC=example,DC=com");
            assert_eq!(request.filter, "(&(objectClass=person)(cn=jsmith))");
        }
        _ => panic!("expected a search"),
    }
    let reply = SearchReply::Completed { rc: 0, entries: vec![jsmith_entry()] };
    if let LoginAction::Unbind = flow.step(LoginEvent::SearchAnswered { answer: reply }) {
        unbinds += 1;
    }
    assert_eq!(flow.permissions.len(), 1);
    assert_eq!(flow.permissions[0].name, "Engineers");
    assert_eq!(flow.permissions[0].description, "CN=jsmith,OU=Users,DC=example,DC=com");
    assert!(matches!(flow.step(LoginEvent::Unbound), LoginAction::Finish));
    assert_eq!(unbinds, 1);
    assert_eq!(flow.connector.state, LinkState::Closed);
    assert_eq!(flow.phase, LoginPhase::Finished { outcome: LoginOutcome::Authenticated });
    let token = match flow.finish(&cfg) {
        LoginResult::Token { token } => token,
        _ => panic!("expected a token"),
    };
    let claims = validate_token(&token, &cfg).unwrap();
    assert_eq!(claims.sub, "jsmith");
    assert_eq!(claims.company, "Example");
    assert_eq!(claims.permissions.len(), 1);
    assert_eq!(claims.permissions[0].name, "Engineers");
    assert_eq!(claims.permissions[0].description, "CN=jsmith,OU=Users,DC=example,DC=com");
    assert_eq!(claims.permissions[0].access_type, Access::READ);
}

#[test]
fn login_with_wrong_password_is_refused_and_closed() {
    let cfg = config();
    let mut flow = LoginFlow::new(&cfg, "jsmith", "wrong");
    assert!(!flow.expects(&LoginEvent::Opened { ok: true }));
    flow.start();
    assert!(flow.expects(&LoginEvent::Opened { ok: true }));
    assert!(!flow.expects(&LoginEvent::Unbound));
    assert!(matches!(flow.step(LoginEvent::Opened { ok: true }), LoginAction::Bind { .. }));
    let next = flow.step(LoginEvent::BindAnswered { reply: BindReply::Completed { rc: 49 } });
    assert!(matches!(next, LoginAction::Unbind));
    assert_eq!(flow.connector.state, LinkState::Closed);
    assert!(matches!(flow.step(LoginEvent::Unbound), LoginAction::Finish));
    assert_eq!(flow.phase, LoginPhase::Finished { outcome: LoginOutcome::AuthenticationFailure });
    let result = flow.finish(&cfg);
    assert!(matches!(result, LoginResult::Unauthorized));
    let (status, body) = login_response(result);
    assert_eq!(status, 401);
    assert_eq!(body, "Invalid credentials");
}

#[test]
fn login_with_bind_transport_error_is_refused_and_closed() {
    let cfg = config();
    let mut flow = LoginFlow::new(&cfg, "jsmith", "correct");
    flow.start();
    flow.step(LoginEvent::Opened { ok: true });
    let next = flow.step(LoginEvent::BindAnswered { reply: BindReply::Failed });
    assert!(matches!(next, LoginAction::Unbind));
    flow.step(LoginEvent::Unbound);
    assert!(matches!(flow.finish(&cfg), LoginResult::Unauthorized));
}

#[test]
fn unreachable_directory_ends_login_without_bind() {
    let cfg = config();
    let mut flow = LoginFlow::new(&cfg, "jsmith", "correct");
    flow.start();
    let next = flow.step(LoginEvent::Opened { ok: false });
    assert!(matches!(next, LoginAction::Finish));
    assert_eq!(flow.connector.state, LinkState::Uninitialized);
    assert_eq!(flow.phase, LoginPhase::Finished { outcome: LoginOutcome::TransportFailure });
    let result = flow.finish(&cfg);
    assert!(matches!(result, LoginResult::TransportFailure));
    let (status, body) = login_response(result);
    assert_eq!(status, 500);
    assert_eq!(body, "Something went wrong. Please try again later.");
}

#[test]
fn failed_search_still_grants_login_without_permissions() {
    let cfg = config();
    let mut flow = LoginFlow::new(&cfg, "jsmith", "correct");
    flow.start();
    flow.step(LoginEvent::Opened { ok: true });
    flow.step(LoginEvent::BindAnswered { reply: BindReply::Completed { rc: 0 } });
    let next = flow.step(LoginEvent::SearchAnswered { answer: SearchReply::Failed });
    assert!(matches!(next, LoginAction::Unbind));
    assert_eq!(flow.permissions.len(), 0);
    flow.step(LoginEvent::Unbound);
    let token = match flow.finish(&cfg) {
        LoginResult::Token { token } => token,
        _ => panic!("expected a token"),
    };
    let (status, body) = login_response(LoginResult::Token { token: token.clone() });
    assert_eq!(status, 200);
    assert_eq!(body, token);
}
