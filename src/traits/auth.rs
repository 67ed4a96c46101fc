use crate::traits::authenticate::Authenticate;
use crate::traits::authorize::Authorize;
use vstd::prelude::*;

verus! {

/// A backend that both checks credentials and resolves permissions.
pub trait Auth: Authenticate + Authorize {

}

} // verus!
