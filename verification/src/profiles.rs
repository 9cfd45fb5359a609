//! Identities.

use vstd::prelude::*;

use crate::sorted_map::SortedMap;

verus! {

/// One identity. Compiles to one `[user]` block in one generated object.
#[derive(Debug)]
pub struct Profile {
    pub name: String,
    pub email: String,
}

/// An identity.
pub struct ProfileView {
    pub name: Seq<char>,
    pub email: Seq<char>,
}

impl View for Profile {
    type V = ProfileView;

    open spec fn view(&self) -> ProfileView {
        ProfileView { name: self.name@, email: self.email@ }
    }
}

/// Identities by key.
pub type Profiles = SortedMap<Profile>;

}
