//! The state of one shell session.

use vstd::prelude::*;
use crate::text::string_of;

verus! {

/// The access token and the two working directories of a session.
pub struct Session {
    pub access_token: String,
    pub current_remote_path: String,
    pub current_local_path: String,
}

impl Session {
    /// A session that starts at the remote root and, locally, in the home
    /// directory (`/` when none is known).
    pub fn new(access_token: String, home: Option<String>) -> (r: Self)
        ensures
            r.access_token@ == access_token@,
            r.current_remote_path@ == seq!['/'],
            r.current_local_path@ == match home {
                Some(h) => h@,
                None => seq!['/'],
            },
    {
        let local = match home {
            Some(h) => h,
            None => {
                let mut v: Vec<char> = Vec::new();
                v.push('/');
                string_of(&v)
            },
        };
        let mut root: Vec<char> = Vec::new();
        root.push('/');
        Session { access_token, current_remote_path: string_of(&root), current_local_path: local }
    }
}

} // verus!
