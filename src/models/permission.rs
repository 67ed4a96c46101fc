use vstd::prelude::*;

verus! {

/// The kind of access that a permission grants.
#[derive(Debug, Clone, Copy, PartialEq, Eq, Structural)]
pub enum Access {
    READ,
    WRITE,
    EXECUTE,
}

/// A right granted to an authenticated identity.
///
/// `name` names the capability, `description` says where it came from and
/// `access_type` says what it allows.
#[derive(Debug, PartialEq, Eq)]
pub struct Permission {
    pub name: String,
    pub description: String,
    pub access_type: Access,
}

/// The mathematical value of a permission.
pub struct PermissionView {
    pub name: Seq<char>,
    pub description: Seq<char>,
    pub access_type: Access,
}

impl View for Permission {
    type V = PermissionView;

    open spec fn view(&self) -> PermissionView {
        PermissionView {
            name: self.name@,
            description: self.description@,
            access_type: self.access_type,
        }
    }
}

impl Permission {
    /// A permission with these parts.
    pub fn new(name: String, description: String, access_type: Access) -> (r: Permission)
        ensures
            r.name@ == name@,
            r.description@ == description@,
            r.access_type == access_type,
    {
        Permission { name, description, access_type }
    }
}

/// The values of a sequence of permissions.
pub open spec fn permissions_view(ps: Seq<Permission>) -> Seq<PermissionView> {
    ps.map_values(|p: Permission| p@)
}

} // verus!
