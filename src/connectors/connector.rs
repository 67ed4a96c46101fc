use vstd::prelude::*;

verus! {

/// The backends that can check a credential.
#[derive(Debug, Clone, Copy, PartialEq, Eq, Structural)]
pub enum Connector {
    Ldap,
    Dummy,
}

} // verus!
