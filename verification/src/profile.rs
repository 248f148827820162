//! The local user's profile.

use vstd::prelude::*;

use crate::outside::new_uuid_string;
use crate::patch::clone_opt_string;

verus! {

/// Who is editing: a stable identity plus display details.
#[derive(Debug)]
pub struct UserProfile {
    /// Stable identity, a uuid.
    pub id: String,
    pub name: String,
    pub email: Option<String>,
    /// Filesystem location of an avatar image, if one was chosen.
    pub avatar_path: Option<String>,
    /// Display color as a hex triplet, e.g. `"#3498db"`.
    pub color: String,
}

impl Clone for UserProfile {
    fn clone(&self) -> (r: Self)
        ensures
            r == *self,
    {
        UserProfile {
            id: self.id.clone(),
            name: self.name.clone(),
            email: clone_opt_string(&self.email),
            avatar_path: clone_opt_string(&self.avatar_path),
            color: self.color.clone(),
        }
    }
}

impl Default for UserProfile {
    /// A fresh profile: a newly drawn identity, no name, no email, no avatar,
    /// and the default display color.
    fn default() -> (r: Self)
        ensures
            r.id@.len() == 36,
            r.name@ == Seq::<char>::empty(),
            r.email is None,
            r.avatar_path is None,
            r.color@ == "#3498db"@,
    {
        UserProfile {
            id: new_uuid_string(),
            name: String::new(),
            email: None,
            avatar_path: None,
            color: "#3498db".to_owned(),
        }
    }
}

} // verus!
