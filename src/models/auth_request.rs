use crate::connectors::connector::Connector;
use vstd::prelude::*;

verus! {

/// The body of a login request: a credential and the connector that checks it.
pub struct AuthRequest {
    pub username: String,
    pub password: String,
    pub connector: Connector,
}

} // verus!
