pub mod text;
pub mod config;
pub mod connectors;
pub mod handlers;
pub mod login;
pub mod models;
pub mod traits;
