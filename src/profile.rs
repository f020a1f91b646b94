//! Profile names, profiles and the direction of a synchronisation.

use vstd::prelude::*;

use crate::config::Config;
use crate::error::ProfileError;
use crate::table::{lookup, Entries, Item, Table};

verus! {

/// The key of a profile's local path.
pub const LOCAL_K: &'static str = "local";

/// The key of a profile's remote path.
pub const REMOTE_K: &'static str = "remote";

pub open spec fn local_key() -> Seq<char> {
    seq!['l', 'o', 'c', 'a', 'l']
}

pub open spec fn remote_key() -> Seq<char> {
    seq!['r', 'e', 'm', 'o', 't', 'e']
}

/// The key constants spell the key sequences, and the two differ.
pub proof fn lemma_key_literals()
    ensures
        LOCAL_K@ == local_key(),
        REMOTE_K@ == remote_key(),
        local_key() != remote_key(),
{
    reveal_strlit("local");
    reveal_strlit("remote");
    assert(local_key()[0] != remote_key()[0]);
}

/// The address of a profile: a root entry, or a child of a root group.
#[derive(Debug, Clone, PartialEq, Eq)]
pub enum ProfileName {
    Root(String),
    Child(String, String),
}

/// The pieces of `s` between its dots, as `str::split('.')` gives them.
pub open spec fn split_dots(s: Seq<char>) -> Seq<Seq<char>>
    decreases s.len(),
{
    if s.len() == 0 {
        seq![Seq::<char>::empty()]
    } else {
        let rest = split_dots(s.drop_last());
        if s.last() == '.' {
            rest.push(Seq::<char>::empty())
        } else {
            rest.update(rest.len() - 1, rest.last().push(s.last()))
        }
    }
}

/// How many dots `s` holds.
pub open spec fn dot_count(s: Seq<char>) -> nat
    decreases s.len(),
{
    if s.len() == 0 {
        0
    } else {
        dot_count(s.drop_last()) + if s.last() == '.' {
            1nat
        } else {
            0nat
        }
    }
}

/// A string splits into one piece more than it has dots; without dots, the
/// one piece is the string itself.
pub proof fn lemma_split_dots(s: Seq<char>)
    ensures
        split_dots(s).len() == dot_count(s) + 1,
        dot_count(s) == 0 ==> split_dots(s) == seq![s],
    decreases s.len(),
{
    if s.len() > 0 {
        lemma_split_dots(s.drop_last());
        if dot_count(s) == 0 {
            assert(s.drop_last().push(s.last()) =~= s);
        }
    } else {
        assert(s =~= Seq::<char>::empty());
    }
}

/// The segments that a name addresses.
pub open spec fn segments(n: ProfileName) -> Seq<Seq<char>> {
    match n {
        ProfileName::Root(a) => seq![a@],
        ProfileName::Child(a, b) => seq![a@, b@],
    }
}

/// How a name is shown: `parent.child` or `name`.
pub open spec fn label(n: ProfileName) -> Seq<char> {
    match n {
        ProfileName::Root(a) => a@,
        ProfileName::Child(a, b) => a@ + seq!['.'] + b@,
    }
}

impl ProfileName {
    /// Splits `full_name` on its dots: one piece is a root name, two a child
    /// name; more are refused.
    pub fn from(full_name: &str) -> (r: Result<ProfileName, ProfileError>)
        ensures
            r is Ok <==> split_dots(full_name@).len() <= 2,
            r matches Ok(n) ==> segments(n) == split_dots(full_name@),
            r matches Err(e) ==> e matches ProfileError::InvalidName(s) && s@ == full_name@,
            dot_count(full_name@) == 0 ==> (r matches Ok(ProfileName::Root(a)) && a@ == full_name@),
            dot_count(full_name@) == 1 ==> (r matches Ok(ProfileName::Child(a, b)) && full_name@
                == a@ + seq!['.'] + b@),
            dot_count(full_name@) >= 2 ==> r is Err,
    {
        proof {
            lemma_split_dots(full_name@);
        }
        let ghost s = full_name@;
        let n = full_name.unicode_len();
        let mut i: usize = 0;
        let mut dots: usize = 0;
        let mut first: usize = 0;
        assert(s.subrange(0, 0) =~= Seq::<char>::empty());
        while i < n
            invariant
                s == full_name@,
                n == s.len(),
                i <= n,
                dots <= 2,
                dots == 0 ==> split_dots(s.subrange(0, i as int)) == seq![s.subrange(0, i as int)],
                dots == 1 ==> first < i && split_dots(s.subrange(0, i as int)) == seq![
                    s.subrange(0, first as int),
                    s.subrange(first + 1, i as int),
                ],
                dots == 2 ==> split_dots(s.subrange(0, i as int)).len() >= 3,
                dots == 1 ==> s[first as int] == '.',
            decreases n - i,
        {
            let c = full_name.get_char(i);
            proof {
                let t = s.subrange(0, i + 1);
                assert(t.drop_last() =~= s.subrange(0, i as int));
                assert(t.last() == c);
            }
            if c == '.' {
                if dots == 0 {
                    first = i;
                    assert(s.subrange(first + 1, i + 1) =~= Seq::<char>::empty());
                }
                if dots < 2 {
                    dots = dots + 1;
                }
            } else {
                if dots == 0 {
                    assert(s.subrange(0, i as int).push(c) =~= s.subrange(0, i + 1));
                } else if dots == 1 {
                    assert(s.subrange(first + 1, i as int).push(c) =~= s.subrange(first + 1, i + 1));
                }
            }
            i = i + 1;
        }
        assert(s.subrange(0, n as int) =~= s);
        if dots == 0 {
            Ok(ProfileName::Root(full_name.to_owned()))
        } else if dots == 1 {
            let parent = full_name.substring_char(0, first).to_owned();
            let child = full_name.substring_char(first + 1, n).to_owned();
            assert(s =~= parent@ + seq!['.'] + child@);
            Ok(ProfileName::Child(parent, child))
        } else {
            Err(ProfileError::InvalidName(full_name.to_owned()))
        }
    }

    /// The name as shown: `parent.child` or `name`.
    pub fn label(&self) -> (r: String)
        ensures
            r@ == label(*self),
    {
        match self {
            ProfileName::Root(a) => a.clone(),
            ProfileName::Child(a, b) => {
                let mut r = a.clone();
                r.append(".");
                r.append(b.as_str());
                proof {
                    reveal_strlit(".");
                }
                r
            },
        }
    }
}

/// A named pair of paths: a local one and a remote one.
#[derive(Debug, Clone, PartialEq, Eq)]
pub struct Profile {
    pub name: ProfileName,
    pub local: String,
    pub remote: String,
}

/// One synchronisation to run: copy `source` onto `target`.
#[derive(Debug, Clone, PartialEq, Eq)]
pub struct ProfileSync {
    pub name: ProfileName,
    pub source: String,
    pub target: String,
}

/// The string under key `k` of a table, if that item is a string.
pub open spec fn text_at(e: Entries, k: Seq<char>) -> Option<Seq<char>> {
    match lookup(e, k) {
        Some(Item::Text(s)) => Some(s@),
        _ => None,
    }
}

/// A table is a leaf profile when it holds both path keys, whatever their values.
pub open spec fn is_leaf(e: Entries) -> bool {
    crate::table::has_key(e, local_key()) && crate::table::has_key(e, remote_key())
}

/// What expansion may make of `raw`: a path with no `$` stays as it is.
pub open spec fn expansion_of(raw: Seq<char>, out: Seq<char>) -> bool {
    !raw.contains('$') ==> out == raw
}

/// `p` is a profile read from `table` under `name`: its paths come from the
/// table's two path strings.
pub open spec fn read_from(p: Profile, name: ProfileName, table: Entries) -> bool {
    &&& p.name == name
    &&& text_at(table, local_key()) matches Some(l) && expansion_of(l, p.local@)
    &&& text_at(table, remote_key()) matches Some(r) && expansion_of(r, p.remote@)
}

/// How reading `table` fails: on the first path key that is missing or not a
/// string, else on an environment variable.
pub open spec fn read_failure(e: ProfileError, table: Entries) -> bool {
    if text_at(table, local_key()) is None {
        e matches ProfileError::MissingKey(k) && k@ == local_key()
    } else if text_at(table, remote_key()) is None {
        e matches ProfileError::MissingKey(k) && k@ == remote_key()
    } else {
        e is Expansion
    }
}

/// Reading `table` needs no environment: both paths are strings without `$`.
pub open spec fn plain_paths(table: Entries) -> bool {
    &&& text_at(table, local_key()) matches Some(l) && !l.contains('$')
    &&& text_at(table, remote_key()) matches Some(r) && !r.contains('$')
}

/// Relies on `shellexpand::env`: `$NAME` and `${NAME}` are replaced from the
/// environment, a variable that is not set fails with its name, and a path
/// without `$` comes back unchanged.
#[verifier::external_body]
fn expand_vars(path: &str) -> (r: Result<String, String>)
    ensures
        !path@.contains('$') ==> r is Ok && r->Ok_0@ == path@,
{
    shellexpand::env(path).map(|s| s.into_owned()).map_err(|e| e.var_name)
}

/// The string under `key`, or the error that names the key.
fn text_of(table: &Table, key: &str) -> (r: Result<String, ProfileError>)
    ensures
        match text_at(table@, key@) {
            Some(t) => r matches Ok(s) && s@ == t,
            None => r matches Err(ProfileError::MissingKey(k)) && k@ == key@,
        },
{
    match table.get(key) {
        Some(Item::Text(s)) => Ok(s.clone()),
        _ => Err(ProfileError::MissingKey(key.to_owned())),
    }
}

/// Whether the table holds both path keys.
pub fn table_is_leaf(table: &Table) -> (r: bool)
    ensures
        r == is_leaf(table@),
{
    proof {
        lemma_key_literals();
    }
    table.contains_key(LOCAL_K) && table.contains_key(REMOTE_K)
}

impl Profile {
    pub fn new(name: ProfileName, local: String, remote: String) -> (r: Profile)
        ensures
            r.name == name,
            r.local == local,
            r.remote == remote,
    {
        Profile { name, local, remote }
    }

    /// Reads the two path strings of `table` and expands the environment
    /// variables in them.
    pub fn from_table(name: ProfileName, table: &Table) -> (r: Result<Profile, ProfileError>)
        ensures
            match r {
                Ok(p) => read_from(p, name, table@),
                Err(e) => read_failure(e, table@),
            },
            plain_paths(table@) ==> r is Ok,
    {
        proof {
            lemma_key_literals();
        }
        let local = match text_of(table, LOCAL_K) {
            Ok(s) => s,
            Err(e) => return Err(e),
        };
        let remote = match text_of(table, REMOTE_K) {
            Ok(s) => s,
            Err(e) => return Err(e),
        };
        let local = match expand_vars(local.as_str()) {
            Ok(s) => s,
            Err(var) => return Err(ProfileError::Expansion(var)),
        };
        let remote = match expand_vars(remote.as_str()) {
            Ok(s) => s,
            Err(var) => return Err(ProfileError::Expansion(var)),
        };
        Ok(Profile::new(name, local, remote))
    }

    /// Local to remote.
    pub fn push(self) -> (r: ProfileSync)
        ensures
            r.name == self.name,
            r.source == self.local,
            r.target == self.remote,
    {
        ProfileSync { name: self.name, source: self.local, target: self.remote }
    }

    /// Remote to local.
    pub fn pull(self) -> (r: ProfileSync)
        ensures
            r.name == self.name,
            r.source == self.remote,
            r.target == self.local,
    {
        ProfileSync { name: self.name, source: self.remote, target: self.local }
    }
}

/// A leaf profile table of the two paths, local first.
pub fn create_profile_table(local: String, remote: String) -> (r: Result<Table, ProfileError>)
    ensures
        r matches Ok(t) && t@ == seq![
            (local_key(), Item::Text(local)),
            (remote_key(), Item::Text(remote)),
        ],
{
    proof {
        lemma_key_literals();
    }
    let mut table = Table::new();
    let ghost (l, r) = (local, remote);
    table.insert(LOCAL_K.to_owned(), Item::Text(local));
    assert(table@ =~= seq![(local_key(), Item::Text(l))]);
    assert(!crate::table::has_key(table@, remote_key()));
    table.insert(REMOTE_K.to_owned(), Item::Text(remote));
    assert(table@ =~= seq![(local_key(), Item::Text(l)), (remote_key(), Item::Text(r))]);
    Ok(table)
}

/// What a validated command asks for.
pub enum Command {
    /// Bind a profile table to a name, then save the store.
    Add(Config, String, Table),
    /// Remove what a name addresses, then save the store.
    Remove(Config, String),
    /// Run these synchronisations.
    Sync(Vec<ProfileSync>),
    /// Show these profiles.
    List(Vec<Profile>),
}

} // verus!
