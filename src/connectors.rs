pub mod connector;
pub mod ldap;
