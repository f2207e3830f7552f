//! Accounts and their access tokens, and the client settings.

use vstd::prelude::*;
use crate::text::{chars_of, extend_chars, str_eq, string_of};

verus! {

/// The stored access token of one account.
#[derive(Clone)]
pub struct UserToken {
    pub access_token: String,
}

/// The account names with their tokens, each name at most once.
pub struct UserTable {
    entries: Vec<(String, UserToken)>,
}

/// The map that a list of (name, token) entries describes.
pub open spec fn entries_map(e: Seq<(String, UserToken)>) -> Map<Seq<char>, Seq<char>>
    decreases e.len(),
{
    if e.len() == 0 {
        Map::empty()
    } else {
        entries_map(e.drop_last()).insert(e.last().0@, e.last().1.access_token@)
    }
}

/// No name occurs twice.
pub open spec fn distinct_names(e: Seq<(String, UserToken)>) -> bool {
    forall|i: int, j: int| 0 <= i < e.len() && 0 <= j < e.len() && i != j ==> #[trigger] e[i].0@ != #[trigger] e[j].0@
}

proof fn lemma_map_contains(e: Seq<(String, UserToken)>, k: Seq<char>)
    ensures
        entries_map(e).dom().contains(k) <==> exists|i: int| 0 <= i < e.len() && #[trigger] e[i].0@ == k,
    decreases e.len(),
{
    if e.len() > 0 {
        let d = e.drop_last();
        lemma_map_contains(d, k);
        if entries_map(d).dom().contains(k) {
            let i = choose|i: int| 0 <= i < d.len() && #[trigger] d[i].0@ == k;
            assert(e[i].0@ == k);
        }
        if exists|i: int| 0 <= i < e.len() && #[trigger] e[i].0@ == k {
            let i = choose|i: int| 0 <= i < e.len() && #[trigger] e[i].0@ == k;
            if i < e.len() - 1 {
                assert(d[i].0@ == k);
            }
        }
    }
}

proof fn lemma_map_finite(e: Seq<(String, UserToken)>)
    ensures
        entries_map(e).dom().finite(),
    decreases e.len(),
{
    if e.len() > 0 {
        lemma_map_finite(e.drop_last());
    }
}

proof fn lemma_map_index(e: Seq<(String, UserToken)>, i: int)
    requires
        distinct_names(e),
        0 <= i < e.len(),
    ensures
        entries_map(e).dom().contains(e[i].0@),
        entries_map(e)[e[i].0@] == e[i].1.access_token@,
    decreases e.len(),
{
    let d = e.drop_last();
    if i < e.len() - 1 {
        assert(distinct_names(d)) by {
            assert forall|a: int, b: int| 0 <= a < d.len() && 0 <= b < d.len() && a != b implies #[trigger] d[a].0@ != #[trigger] d[b].0@ by {
                assert(d[a] == e[a] && d[b] == e[b]);
            }
        }
        lemma_map_index(d, i);
        assert(d[i] == e[i]);
        assert(e[i].0@ != e[e.len() - 1].0@);
    }
}

proof fn lemma_distinct_drop_last(e: Seq<(String, UserToken)>)
    requires
        distinct_names(e),
        e.len() > 0,
    ensures
        distinct_names(e.drop_last()),
{
    let d = e.drop_last();
    assert forall|a: int, b: int| 0 <= a < d.len() && 0 <= b < d.len() && a != b implies #[trigger] d[a].0@ != #[trigger] d[b].0@ by {
        assert(d[a] == e[a] && d[b] == e[b]);
    }
}

proof fn lemma_map_update(e: Seq<(String, UserToken)>, i: int, t: UserToken)
    requires
        distinct_names(e),
        0 <= i < e.len(),
    ensures
        entries_map(e.update(i, (e[i].0, t))) == entries_map(e).insert(e[i].0@, t.access_token@),
    decreases e.len(),
{
    let d = e.drop_last();
    let u = e.update(i, (e[i].0, t));
    if i == e.len() - 1 {
        assert(u.drop_last() =~= d);
        assert(entries_map(u) =~= entries_map(e).insert(e[i].0@, t.access_token@));
    } else {
        lemma_distinct_drop_last(e);
        lemma_map_update(d, i, t);
        assert(u.drop_last() =~= d.update(i, (d[i].0, t)));
        assert(d[i] == e[i]);
        assert(e[i].0@ != e[e.len() - 1].0@);
        assert(entries_map(u) =~= entries_map(e).insert(e[i].0@, t.access_token@));
    }
}

proof fn lemma_map_remove(e: Seq<(String, UserToken)>, i: int)
    requires
        distinct_names(e),
        0 <= i < e.len(),
    ensures
        entries_map(e.remove(i)) == entries_map(e).remove(e[i].0@),
        distinct_names(e.remove(i)),
    decreases e.len(),
{
    let d = e.drop_last();
    let r = e.remove(i);
    lemma_distinct_drop_last(e);
    assert(distinct_names(r)) by {
        assert forall|a: int, b: int| 0 <= a < r.len() && 0 <= b < r.len() && a != b implies #[trigger] r[a].0@ != #[trigger] r[b].0@ by {
            let a2 = if a < i { a } else { a + 1 };
            let b2 = if b < i { b } else { b + 1 };
            assert(r[a] == e[a2] && r[b] == e[b2]);
        }
    }
    if i == e.len() - 1 {
        assert(r =~= d);
        let k = e[i].0@;
        lemma_map_contains(d, k);
        assert(!entries_map(d).dom().contains(k)) by {
            if entries_map(d).dom().contains(k) {
                let j = choose|j: int| 0 <= j < d.len() && #[trigger] d[j].0@ == k;
                assert(e[j].0@ == k);
            }
        }
        assert(entries_map(r) =~= entries_map(e).remove(k));
    } else {
        lemma_map_remove(d, i);
        assert(r.drop_last() =~= d.remove(i));
        assert(r.last() == e.last());
        assert(d[i] == e[i]);
        assert(e[i].0@ != e[e.len() - 1].0@);
        assert(entries_map(r) =~= entries_map(e).remove(e[i].0@));
    }
}

impl View for UserTable {
    type V = Map<Seq<char>, Seq<char>>;

    /// The accounts as a map from name to token.
    closed spec fn view(&self) -> Map<Seq<char>, Seq<char>> {
        entries_map(self.entries@)
    }
}

impl UserTable {
    #[verifier::type_invariant]
    spec fn names_distinct(self) -> bool {
        distinct_names(self.entries@)
    }

    /// The account names in table order.
    pub closed spec fn order(&self) -> Seq<Seq<char>> {
        Seq::new(self.entries@.len(), |i: int| self.entries@[i].0@)
    }

    /// An empty table.
    pub fn new() -> (r: Self)
        ensures
            r.view() == Map::<Seq<char>, Seq<char>>::empty(),
    {
        let r = UserTable { entries: Vec::new() };
        assert(r.view() =~= Map::<Seq<char>, Seq<char>>::empty());
        r
    }

    fn index_of(&self, name: &str) -> (r: Option<usize>)
        ensures
            match r {
                Some(i) => i < self.entries@.len() && self.entries@[i as int].0@ == name@
                    && self.view().dom().contains(name@)
                    && self.view()[name@] == self.entries@[i as int].1.access_token@,
                None => !self.view().dom().contains(name@),
            },
    {
        proof { use_type_invariant(self); }
        for i in 0..self.entries.len()
            invariant
                distinct_names(self.entries@),
                forall|j: int| 0 <= j < i ==> self.entries@[j].0@ != name@,
        {
            if str_eq(self.entries[i].0.as_str(), name) {
                proof { lemma_map_index(self.entries@, i as int); }
                return Some(i);
            }
        }
        proof { lemma_map_contains(self.entries@, name@); }
        None
    }

    /// Is there an account of this name?
    pub fn contains(&self, name: &str) -> (r: bool)
        ensures
            r == self.view().dom().contains(name@),
    {
        self.index_of(name).is_some()
    }

    /// The token of an account.
    pub fn get(&self, name: &str) -> (r: Option<&UserToken>)
        ensures
            match r {
                Some(t) => self.view().dom().contains(name@) && self.view()[name@] == t.access_token@,
                None => !self.view().dom().contains(name@),
            },
    {
        match self.index_of(name) {
            Some(i) => Some(&self.entries[i].1),
            None => None,
        }
    }

    /// Stores `token` under `name`, replacing a token stored before.
    pub fn insert(&mut self, name: &str, token: UserToken)
        ensures
            final(self).view() == old(self).view().insert(name@, token.access_token@),
    {
        proof { use_type_invariant(&*self); }
        match self.index_of(name) {
            Some(i) => {
                let ghost e = self.entries@;
                let key = self.entries[i].0.clone();
                proof { lemma_map_update(e, i as int, token); }
                assert(e.update(i as int, (e[i as int].0, token)) == e.update(i as int, (key, token)));
                let mut v: Vec<(String, UserToken)> = Vec::new();
                std::mem::swap(&mut v, &mut self.entries);
                v.set(i, (key, token));
                assert(v@ == e.update(i as int, (e[i as int].0, token)));
                self.entries = v;
            },
            None => {
                let ghost e = self.entries@;
                proof { lemma_map_contains(e, name@); }
                let n = string_of(&chars_of(name));
                let mut v: Vec<(String, UserToken)> = Vec::new();
                std::mem::swap(&mut v, &mut self.entries);
                v.push((n, token));
                assert(v@.drop_last() =~= e);
                assert(distinct_names(v@)) by {
                    assert forall|a: int, b: int| 0 <= a < v@.len() && 0 <= b < v@.len() && a != b
                        implies #[trigger] v@[a].0@ != #[trigger] v@[b].0@ by {
                        if a < e.len() && b < e.len() {
                            assert(v@[a] == e[a] && v@[b] == e[b]);
                        } else if a < e.len() {
                            assert(v@[a] == e[a]);
                        } else {
                            assert(v@[b] == e[b]);
                        }
                    }
                }
                self.entries = v;
            },
        }
    }

    /// Removes an account, returning its token if it existed.
    pub fn remove(&mut self, name: &str) -> (r: Option<UserToken>)
        ensures
            final(self).view() == old(self).view().remove(name@),
            match r {
                Some(t) => old(self).view().dom().contains(name@) && old(self).view()[name@] == t.access_token@,
                None => !old(self).view().dom().contains(name@),
            },
    {
        proof { use_type_invariant(&*self); }
        match self.index_of(name) {
            Some(i) => {
                let ghost e = self.entries@;
                proof { lemma_map_remove(e, i as int); }
                let mut v: Vec<(String, UserToken)> = Vec::new();
                std::mem::swap(&mut v, &mut self.entries);
                let (_, t) = v.remove(i);
                self.entries = v;
                Some(t)
            },
            None => {
                assert(old(self).view().remove(name@) =~= old(self).view());
                None
            },
        }
    }

    /// Is the table empty?
    pub fn is_empty(&self) -> (r: bool)
        ensures
            r == (self.view() == Map::<Seq<char>, Seq<char>>::empty()),
    {
        proof {
            if self.entries@.len() > 0 {
                lemma_map_contains(self.entries@, self.entries@[0].0@);
                assert(self.view().dom().contains(self.entries@[0].0@));
            } else {
                assert(self.view() =~= Map::<Seq<char>, Seq<char>>::empty());
            }
        }
        self.entries.len() == 0
    }

    /// The first account name in table order.
    pub fn first_name(&self) -> (r: Option<String>)
        ensures
            match r {
                Some(n) => self.view().dom().contains(n@),
                None => self.view() == Map::<Seq<char>, Seq<char>>::empty(),
            },
    {
        if self.entries.len() == 0 {
            assert(self.view() =~= Map::<Seq<char>, Seq<char>>::empty());
            None
        } else {
            proof { lemma_map_contains(self.entries@, self.entries@[0].0@); }
            Some(self.entries[0].0.clone())
        }
    }

    /// References to all account names, each once.
    pub fn names(&self) -> (r: Vec<&String>)
        ensures
            r@.len() == self.order().len(),
            forall|i: int| 0 <= i < r@.len() ==> #[trigger] r@[i]@ == self.order()[i],
            r@.len() == self.view().dom().len(),
            forall|i: int| 0 <= i < r@.len() ==> self.view().dom().contains(#[trigger] r@[i]@),
            forall|k: Seq<char>| #[trigger] self.view().dom().contains(k) ==> exists|i: int| 0 <= i < r@.len() && r@[i]@ == k,
            forall|i: int, j: int| 0 <= i < r@.len() && 0 <= j < r@.len() && i != j ==> #[trigger] r@[i]@ != #[trigger] r@[j]@,
    {
        proof { use_type_invariant(self); }
        let mut out: Vec<&String> = Vec::new();
        for i in 0..self.entries.len()
            invariant
                out@.len() == i,
                forall|j: int| 0 <= j < i ==> #[trigger] out@[j]@ == self.entries@[j].0@,
        {
            out.push(&self.entries[i].0);
        }
        proof {
            let e = self.entries@;
            assert forall|i: int| 0 <= i < out@.len() implies self.view().dom().contains(#[trigger] out@[i]@) by {
                lemma_map_contains(e, e[i].0@);
            }
            assert forall|k: Seq<char>| #[trigger] self.view().dom().contains(k) implies exists|i: int| 0 <= i < out@.len() && out@[i]@ == k by {
                lemma_map_contains(e, k);
                let i = choose|i: int| 0 <= i < e.len() && #[trigger] e[i].0@ == k;
                assert(out@[i]@ == k);
            }
            lemma_dom_len(e);
        }
        out
    }
}

proof fn lemma_dom_len(e: Seq<(String, UserToken)>)
    requires
        distinct_names(e),
    ensures
        entries_map(e).dom().len() == e.len(),
    decreases e.len(),
{
    if e.len() > 0 {
        let d = e.drop_last();
        lemma_distinct_drop_last(e);
        lemma_dom_len(d);
        lemma_map_finite(d);
        lemma_map_contains(d, e.last().0@);
        assert(!entries_map(d).dom().contains(e.last().0@)) by {
            if entries_map(d).dom().contains(e.last().0@) {
                let j = choose|j: int| 0 <= j < d.len() && #[trigger] d[j].0@ == e.last().0@;
                assert(e[j].0@ == e[e.len() - 1].0@);
            }
        }
    } else {
        assert(entries_map(e).dom() =~= Set::<Seq<char>>::empty());
    }
}

/// Client settings and the accounts they know.
pub struct Config {
    pub response_type: String,
    pub client_id: String,
    pub redirect_uri: String,
    pub scope: String,
    /// The account used when none is named.
    pub default: String,
    pub users: UserTable,
}

/// Why a configuration is not usable.
pub open spec fn validation_error(c: &Config) -> Option<Seq<char>> {
    if c.client_id@.len() == 0 {
        Some("client_id 不能为空"@)
    } else if c.users@ == Map::<Seq<char>, Seq<char>>::empty() {
        Some("至少需要配置一个用户"@)
    } else if !c.users@.dom().contains(c.default@) {
        Some("默认用户 '"@ + c.default@ + "' 不存在于用户列表中"@)
    } else {
        None
    }
}

/// The settings other than the account table and the default account are equal.
pub open spec fn same_settings(a: &Config, b: &Config) -> bool {
    a.response_type@ == b.response_type@ && a.client_id@ == b.client_id@
        && a.redirect_uri@ == b.redirect_uri@ && a.scope@ == b.scope@
}

impl Default for Config {
    /// Token flow, no client id, out-of-band redirect, `basic,netdisk`
    /// scope, default account `default_user`, no accounts.
    fn default() -> (r: Self)
        ensures
            r.response_type@ == "token"@,
            r.client_id@ == Seq::<char>::empty(),
            r.redirect_uri@ == "oob"@,
            r.scope@ == "basic,netdisk"@,
            r.default@ == "default_user"@,
            r.users@ == Map::<Seq<char>, Seq<char>>::empty(),
    {
        Config {
            response_type: string_of(&chars_of("token")),
            client_id: String::new(),
            redirect_uri: string_of(&chars_of("oob")),
            scope: string_of(&chars_of("basic,netdisk")),
            default: string_of(&chars_of("default_user")),
            users: UserTable::new(),
        }
    }
}

impl Config {
    /// The token of `username`; an account with an empty token is added
    /// when there is none (saving the file is left to the caller).
    pub fn get_or_create_user_token(&mut self, username: &str) -> (r: String)
        ensures
            same_settings(final(self), old(self)),
            final(self).default@ == old(self).default@,
            old(self).users@.dom().contains(username@) ==> r@ == old(self).users@[username@]
                && final(self).users@ == old(self).users@,
            !old(self).users@.dom().contains(username@) ==> r@ == Seq::<char>::empty()
                && final(self).users@ == old(self).users@.insert(username@, Seq::<char>::empty()),
    {
        match self.users.get(username) {
            Some(t) => t.access_token.clone(),
            None => {
                self.users.insert(username, UserToken { access_token: String::new() });
                String::new()
            },
        }
    }

    /// [`Config::get_or_create_user_token`] for the default account.
    pub fn get_or_create_default_token(&mut self) -> (r: String)
        ensures
            same_settings(final(self), old(self)),
            final(self).default@ == old(self).default@,
            old(self).users@.dom().contains(old(self).default@) ==> r@ == old(self).users@[old(self).default@]
                && final(self).users@ == old(self).users@,
            !old(self).users@.dom().contains(old(self).default@) ==> r@ == Seq::<char>::empty()
                && final(self).users@ == old(self).users@.insert(old(self).default@, Seq::<char>::empty()),
    {
        let default_user = self.default.clone();
        self.get_or_create_user_token(default_user.as_str())
    }

    /// The token of the default account.
    pub fn get_default_token(&self) -> (r: Option<&String>)
        ensures
            match r {
                Some(t) => self.users@.dom().contains(self.default@) && t@ == self.users@[self.default@],
                None => !self.users@.dom().contains(self.default@),
            },
    {
        match self.users.get(self.default.as_str()) {
            Some(t) => Some(&t.access_token),
            None => None,
        }
    }

    /// The token of `username`.
    pub fn get_user_token(&self, username: &str) -> (r: Option<&String>)
        ensures
            match r {
                Some(t) => self.users@.dom().contains(username@) && t@ == self.users@[username@],
                None => !self.users@.dom().contains(username@),
            },
    {
        match self.users.get(username) {
            Some(t) => Some(&t.access_token),
            None => None,
        }
    }

    /// Stores `token` for `username`, adding the account if needed.
    pub fn set_user_token(&mut self, username: &str, token: String)
        ensures
            same_settings(final(self), old(self)),
            final(self).default@ == old(self).default@,
            final(self).users@ == old(self).users@.insert(username@, token@),
    {
        self.users.insert(username, UserToken { access_token: token });
    }

    /// Makes `username` the default account.
    pub fn set_default_user(&mut self, username: &str)
        ensures
            same_settings(final(self), old(self)),
            final(self).default@ == username@,
            final(self).users == old(self).users,
    {
        self.default = string_of(&chars_of(username));
    }

    /// All account names, each once, in the table's order.
    pub fn get_users(&self) -> (r: Vec<&String>)
        ensures
            r@.len() == self.users.order().len(),
            forall|i: int| 0 <= i < r@.len() ==> #[trigger] r@[i]@ == self.users.order()[i],
            r@.len() == self.users@.dom().len(),
            forall|i: int| 0 <= i < r@.len() ==> self.users@.dom().contains(#[trigger] r@[i]@),
            forall|k: Seq<char>| #[trigger] self.users@.dom().contains(k) ==> exists|i: int| 0 <= i < r@.len() && r@[i]@ == k,
            forall|i: int, j: int| 0 <= i < r@.len() && 0 <= j < r@.len() && i != j ==> #[trigger] r@[i]@ != #[trigger] r@[j]@,
    {
        self.users.names()
    }

    /// Checks that a client id is set, that there is an account, and that
    /// the default account exists.
    pub fn validate(&self) -> (r: Result<(), String>)
        ensures
            match validation_error(self) {
                Some(msg) => r matches Err(e) && e@ == msg,
                None => r is Ok,
            },
    {
        if self.client_id.as_str().is_empty() {
            return Err(string_of(&chars_of("client_id 不能为空")));
        }
        if self.users.is_empty() {
            return Err(string_of(&chars_of("至少需要配置一个用户")));
        }
        if !self.users.contains(self.default.as_str()) {
            let mut v = chars_of("默认用户 '");
            extend_chars(&mut v, &chars_of(self.default.as_str()));
            extend_chars(&mut v, &chars_of("' 不存在于用户列表中"));
            return Err(string_of(&v));
        }
        Ok(())
    }

    /// Adds (or overwrites) an account; a missing token is stored as empty.
    pub fn add_user(&mut self, username: &str, token: Option<String>)
        ensures
            same_settings(final(self), old(self)),
            final(self).default@ == old(self).default@,
            final(self).users@ == old(self).users@.insert(
                username@,
                match token {
                    Some(t) => t@,
                    None => Seq::<char>::empty(),
                },
            ),
    {
        let t = match token {
            Some(t) => t,
            None => String::new(),
        };
        self.users.insert(username, UserToken { access_token: t });
    }

    /// Removes an account. When it was the default and others remain, one
    /// of the remaining accounts becomes the default.
    pub fn remove_user(&mut self, username: &str) -> (r: Option<UserToken>)
        ensures
            same_settings(final(self), old(self)),
            final(self).users@ == old(self).users@.remove(username@),
            match r {
                Some(t) => old(self).users@.dom().contains(username@) && old(self).users@[username@] == t.access_token@,
                None => !old(self).users@.dom().contains(username@),
            },
            (old(self).default@ == username@ && final(self).users@ != Map::<Seq<char>, Seq<char>>::empty())
                ==> final(self).users@.dom().contains(final(self).default@),
            !(old(self).default@ == username@ && final(self).users@ != Map::<Seq<char>, Seq<char>>::empty())
                ==> final(self).default@ == old(self).default@,
    {
        let result = self.users.remove(username);
        if str_eq(self.default.as_str(), username) && !self.users.is_empty() {
            match self.users.first_name() {
                Some(first) => {
                    self.default = first;
                },
                None => {},
            }
        }
        result
    }

    /// Is there an account of this name?
    pub fn has_user(&self, username: &str) -> (r: bool)
        ensures
            r == self.users@.dom().contains(username@),
    {
        self.users.contains(username)
    }
}

/// Law: a token stored for an account is the token read back for it, and
/// other accounts keep theirs.
pub proof fn stored_token_is_read_back(users: Map<Seq<char>, Seq<char>>, name: Seq<char>, token: Seq<char>, other: Seq<char>)
    ensures
        users.insert(name, token).dom().contains(name),
        users.insert(name, token)[name] == token,
        other != name ==> (users.insert(name, token).dom().contains(other) == users.dom().contains(other)),
        other != name && users.dom().contains(other) ==> users.insert(name, token)[other] == users[other],
{
}

/// Law: an account that was removed is gone, and an added one is present.
pub proof fn removed_is_gone_added_is_present(users: Map<Seq<char>, Seq<char>>, name: Seq<char>, token: Seq<char>)
    ensures
        !users.remove(name).dom().contains(name),
        users.insert(name, token).dom().contains(name),
{
}

/// Law: `get_or_create_user_token` settles after one call — calling it a
/// second time returns the same token and changes nothing.
pub proof fn get_or_create_settles(users: Map<Seq<char>, Seq<char>>, name: Seq<char>)
    ensures
        ({
            let after = if users.dom().contains(name) { users } else { users.insert(name, Seq::<char>::empty()) };
            let first = if users.dom().contains(name) { users[name] } else { Seq::<char>::empty() };
            &&& after.dom().contains(name)
            &&& after[name] == first
            &&& after.insert(name, after[name]) == after
        }),
{
    let after = if users.dom().contains(name) { users } else { users.insert(name, Seq::<char>::empty()) };
    assert(after.insert(name, after[name]) =~= after);
}

/// Law: removing an account keeps a valid configuration valid as long as
/// some account is left, because the default then names a remaining account.
pub proof fn remove_keeps_config_valid(before: Config, after: Config, name: Seq<char>)
    requires
        validation_error(&before) is None,
        same_settings(&after, &before),
        after.users@ == before.users@.remove(name),
        after.users@ != Map::<Seq<char>, Seq<char>>::empty(),
        (before.default@ == name && after.users@ != Map::<Seq<char>, Seq<char>>::empty())
            ==> after.users@.dom().contains(after.default@),
        !(before.default@ == name && after.users@ != Map::<Seq<char>, Seq<char>>::empty())
            ==> after.default@ == before.default@,
    ensures
        validation_error(&after) is None,
{
}

} // verus!
