use crate::connectors::ldap::SearchReply;
use crate::models::permission::{Permission, PermissionView};
use vstd::prelude::*;

verus! {

/// A backend that knows the permissions of an authenticated identity.
pub trait Authorize: Sized {
    /// The permissions that the backend grants `identifier`, having answered `reply` to
    /// the lookup.
    spec fn grants(&self, identifier: Seq<char>, reply: SearchReply) -> Seq<PermissionView>;

    /// The permissions of `identifier`; empty, never an error, where the lookup found
    /// nothing or failed. The backend is left as it was.
    fn resolve_permission(&mut self, identifier: &str, reply: SearchReply) -> (r: Vec<Permission>)
        ensures
            r@.map_values(|p: Permission| p@) == old(self).grants(identifier@, reply),
            *final(self) == *old(self),
    ;
}

} // verus!
