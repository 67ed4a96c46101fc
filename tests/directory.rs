use authio::config::Config;
use authio::connectors::ldap::{
    bind_dn, fill_filter_template, parse_group_name, Attribute, BindReply,
    DirectoryEntry, LdapConnector, LinkState, SearchReply,
};
use authio::models::permission::Access;
use authio::traits::authenticate::Authenticate;
use authio::traits::authorize::Authorize;

fn config() -> Config {
    Config {
        jwt_secret_key: "secret".to_string(),
        jwt_expiration_time_seconds: 3600,
        ldap_url: "ldap://localhost:389".to_string(),
        http_bind_address: "127.0.0.1".to_string(),
        http_port: 8080,
        ad_base_dn: "OU=Users,DC=example,DC=com".to_string(),
        ad_filter_format: "(&(objectClass=person)(cn={}))".to_string(),
        ad_attrs: vec!["cn".to_string(), "memberOf".to_string()],
        jwt_company: "ACME".to_string(),
    }
}

fn entry(dn: &str, groups: &[&str]) -> DirectoryEntry {
    DirectoryEntry {
        dn: dn.to_string(),
        attrs: vec![
            Attribute { name: "cn".to_string(), values: vec!["someone".to_string()] },
            Attribute {
                name: "memberOf".to_string(),
                values: groups.iter().map(|g| g.to_string()).collect(),
            },
        ],
    }
}

fn connected() -> LdapConnector {
    let mut c = LdapConnector::new(&config());
    assert!(c.initialize(true));
    c
}

#[test]
fn bind_dn_joins_username_and_base() {
    let dn = bind_dn("jsmith", "OU=Users,DC=example,DC=com");
    assert_eq!(dn, "CN=jsmith,OU=Users,DC=example,DC=com");
}

#[test]
fn bind_request_needs_a_connection() {
    let mut c = LdapConnector::new(&config());
    assert_eq!(c.bind_request("jsmith"), None);
    assert!(!c.initialize(false));
    assert_eq!(c.state, LinkState::Uninitialized);
    assert_eq!(c.bind_request("jsmith"), None);
    assert!(c.initialize(true));
    assert_eq!(
        c.bind_request("jsmith"),
        Some("CN=jsmith,OU=Users,DC=example,DC=com".to_string())
    );
}

#[test]
fn bind_success_authenticates() {
    let mut c = connected();
    assert!(c.check_bind(&BindReply::Completed { rc: 0 }));
    assert!(c.authenticate("jsmith", "correct", &BindReply::Completed { rc: 0 }));
}

#[test]
fn bind_rejection_and_transport_error_do_not_authenticate() {
    let mut c = connected();
    assert!(!c.authenticate("jsmith", "wrong", &BindReply::Completed { rc: 49 }));
    assert!(!c.authenticate("jsmith", "wrong", &BindReply::Failed));
}

#[test]
fn bind_without_connection_does_not_authenticate() {
    let mut c = LdapConnector::new(&config());
    assert!(!c.authenticate("jsmith", "correct", &BindReply::Completed { rc: 0 }));
}

#[test]
fn group_name_is_value_of_first_component() {
    assert_eq!(parse_group_name("CN=Engineers,OU=Groups,DC=example,DC=com"), "Engineers");
    assert_eq!(parse_group_name("CN=Admins"), "Admins");
    assert_eq!(parse_group_name("CN=a=b,OU=x"), "a");
    assert_eq!(parse_group_name("NoValue,OU=x"), "");
    assert_eq!(parse_group_name(""), "");
}

#[test]
fn entries_map_to_one_read_permission_per_group() {
    let entries = vec![
        entry("CN=jsmith,OU=Users,DC=example,DC=com", &["CN=Engineers,OU=Groups,DC=example,DC=com", "CN=Ops,OU=Groups"]),
        entry("CN=other,OU=Users", &["CN=Engineers,OU=Groups"]),
    ];
    let perms = LdapConnector::parse_search_entry(&entries);
    assert_eq!(perms.len(), 3);
    assert_eq!(perms[0].name, "Engineers");
    assert_eq!(perms[0].description, "CN=jsmith,OU=Users,DC=example,DC=com");
    assert_eq!(perms[0].access_type, Access::READ);
    assert_eq!(perms[1].name, "Ops");
    assert_eq!(perms[2].name, "Engineers");
    assert_eq!(perms[2].description, "CN=other,OU=Users");
}

#[test]
fn entry_without_membership_gives_nothing() {
    let entries = vec![DirectoryEntry {
        dn: "CN=x".to_string(),
        attrs: vec![Attribute { name: "mail".to_string(), values: vec!["x@example.com".to_string()] }],
    }];
    assert_eq!(LdapConnector::parse_search_entry(&entries).len(), 0);
    assert_eq!(LdapConnector::parse_search_entry(&vec![]).len(), 0);
}

#[test]
fn failed_search_resolves_to_no_permission() {
    let mut c = connected();
    let denied = SearchReply::Completed { rc: 32, entries: vec![entry("CN=x", &["CN=G,OU=g"])] };
    assert_eq!(c.resolve_permission("jsmith", denied).len(), 0);
    assert_eq!(c.resolve_permission("jsmith", SearchReply::Failed).len(), 0);
    let empty = SearchReply::Completed { rc: 0, entries: vec![] };
    assert_eq!(c.resolve_permission("jsmith", empty).len(), 0);
}

#[test]
fn successful_search_resolves_each_membership() {
    let mut c = connected();
    let reply = SearchReply::Completed {
        rc: 0,
        entries: vec![entry("CN=jsmith", &["CN=A,OU=g", "CN=B,OU=g", "CN=A,OU=g"])],
    };
    let perms = c.resolve_permission("jsmith", reply);
    let names: Vec<&str> = perms.iter().map(|p| p.name.as_str()).collect();
    assert_eq!(names, vec!["A", "B", "A"]);
}

#[test]
fn search_request_escapes_identifier_into_template() {
    let c = connected();
    let q = c.permission_lookup("a*(b)\\").unwrap();
    assert_eq!(q.base, "OU=Users,DC=example,DC=com");
    assert_eq!(q.filter, "(&(objectClass=person)(cn=a\\2a\\28b\\29\\5c))");
    assert_eq!(q.attrs, vec!["cn".to_string(), "memberOf".to_string()]);
    let plain = c.permission_lookup("jsmith").unwrap();
    assert_eq!(plain.filter, "(&(objectClass=person)(cn=jsmith))");
}

#[test]
fn search_request_needs_a_connection() {
    let c = LdapConnector::new(&config());
    assert!(c.permission_lookup("jsmith").is_none());
}

#[test]
fn template_fills_every_placeholder() {
    assert_eq!(fill_filter_template("(|(cn={})(uid={}))", "x"), "(|(cn=x)(uid=x))");
    assert_eq!(fill_filter_template("{{}}", "v"), "{v}");
    assert_eq!(fill_filter_template("(cn=*)", "v"), "(cn=*)");
}

#[test]
fn unbind_happens_once() {
    let mut c = connected();
    assert!(c.unbind_ldap());
    assert_eq!(c.state, LinkState::Closed);
    assert!(!c.unbind_ldap());
    let mut fresh = LdapConnector::new(&config());
    assert!(!fresh.unbind_ldap());
}
