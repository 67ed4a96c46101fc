use crate::connectors::ldap::BindReply;
use vstd::prelude::*;

verus! {

/// A backend that checks credentials.
pub trait Authenticate: Sized {
    /// Whether the backend, having answered `reply` to the check of `username` and
    /// `password`, accepts the credential.
    spec fn authenticates(&self, username: Seq<char>, password: Seq<char>, reply: BindReply) -> bool;

    /// Decides whether the credential is accepted. Failure is a `false`, never an error,
    /// and the decision leaves the backend as it was.
    fn authenticate(&mut self, username: &str, password: &str, reply: &BindReply) -> (r: bool)
        ensures
            r == old(self).authenticates(username@, password@, *reply),
            *final(self) == *old(self),
    ;
}

} // verus!
