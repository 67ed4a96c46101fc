pub mod auth;
pub mod authenticate;
pub mod authorize;
