pub mod auth_request;
pub mod claims_reader;
pub mod jwt;
pub mod permission;

pub use auth_request::AuthRequest;
pub use permission::{Access, Permission};
