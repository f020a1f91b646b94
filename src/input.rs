//! Commands as given, and their resolution against the store.

use vstd::prelude::*;

use crate::config::{leaf_candidates, profiles_outcome, resolve, selects, Config};
use crate::error::ProfileError;
use crate::profile::{
    self, create_profile_table, local_key, remote_key, split_dots, Profile, ProfileName,
    ProfileSync,
};
use crate::table::Item;

verus! {

/// The reserved name that stands for every leaf profile.
pub const ALL_PROFILES: &'static str = "all";

pub open spec fn all_name() -> Seq<char> {
    seq!['a', 'l', 'l']
}

/// A command as the user gave it.
#[derive(Debug, Clone, PartialEq, Eq)]
pub enum Command {
    /// Add a profile: a name, a local path and a remote path.
    Add { name: String, local: String, remote: String },
    /// Remove a profile.
    Remove { name: String },
    /// Copy a profile's local path onto its remote one.
    Push { name: String },
    /// Copy a profile's remote path onto its local one.
    Pull { name: String },
    /// Show every leaf profile.
    List,
}

/// What a name given by the user resolves to: every leaf profile for the
/// reserved name, else what the parsed name addresses.
pub open spec fn profiles_for(
    doc: crate::table::Entries,
    name: Seq<char>,
    r: Result<Vec<Profile>, ProfileError>,
) -> bool {
    if name == all_name() {
        r matches Ok(v) && selects(v@, leaf_candidates(doc))
    } else if split_dots(name).len() > 2 {
        r matches Err(ProfileError::InvalidName(s)) && s@ == name
    } else {
        profiles_outcome(r, resolve(doc, split_dots(name)))
    }
}

/// `v` is `ps` turned into synchronisations, pushes or pulls.
pub open spec fn directed(ps: Seq<Profile>, v: Seq<ProfileSync>, push: bool) -> bool {
    &&& ps.len() == v.len()
    &&& forall|i: int|
        0 <= i < v.len() ==> {
            &&& (#[trigger] v[i]).name == ps[i].name
            &&& push ==> v[i].source == ps[i].local && v[i].target == ps[i].remote
            &&& !push ==> v[i].source == ps[i].remote && v[i].target == ps[i].local
        }
}

/// `r` is the synchronisation command for name `name`, in direction `push`.
pub open spec fn sync_outcome(
    doc: crate::table::Entries,
    name: Seq<char>,
    push: bool,
    r: Result<profile::Command, ProfileError>,
) -> bool {
    match r {
        Ok(profile::Command::Sync(v)) => exists|ps: Vec<Profile>|
            profiles_for(doc, name, Ok(ps)) && #[trigger] directed(ps@, v@, push),
        Ok(_) => false,
        Err(e) => profiles_for(doc, name, Err(e)),
    }
}

/// Whether `name` is the reserved name.
fn is_all(name: &String) -> (r: bool)
    ensures
        r == (name@ == all_name()),
{
    proof {
        reveal_strlit("all");
        assert(ALL_PROFILES@ == all_name());
    }
    let all = ALL_PROFILES.to_owned();
    *name == all
}

/// The profiles that a name given by the user addresses.
fn profiles_named(config: &Config, name: &String) -> (r: Result<Vec<Profile>, ProfileError>)
    ensures
        profiles_for(config@, name@, r),
{
    if is_all(name) {
        config.get_leaves_profiles()
    } else {
        let profile_name = match ProfileName::from(name.as_str()) {
            Ok(n) => n,
            Err(e) => return Err(e),
        };
        config.get_profiles(&profile_name)
    }
}

/// Turns profiles into synchronisations: pushes when `push`, else pulls.
fn direct(profiles: Vec<Profile>, push: bool) -> (r: Vec<ProfileSync>)
    ensures
        directed(profiles@, r@, push),
{
    let ghost ps = profiles@;
    let mut rest = profiles;
    let mut out: Vec<ProfileSync> = Vec::new();
    while rest.len() > 0
        invariant
            out@.len() + rest@.len() == ps.len(),
            rest@ == ps.subrange(out@.len() as int, ps.len() as int),
            directed(ps.subrange(0, out@.len() as int), out@, push),
        decreases rest@.len(),
    {
        let p = rest.remove(0);
        let s = if push {
            p.push()
        } else {
            p.pull()
        };
        out.push(s);
        assert(directed(ps.subrange(0, out@.len() as int), out@, push)) by {
            let n = out@.len() - 1;
            assert(ps.subrange(0, out@.len() as int)[n] == ps[n]);
        }
    }
    assert(ps.subrange(0, ps.len() as int) =~= ps);
    out
}

/// The synchronisations for the profiles a name addresses.
fn sync_command(config: &Config, name: &String, push: bool) -> (r: Result<
    profile::Command,
    ProfileError,
>)
    ensures
        sync_outcome(config@, name@, push, r),
{
    let profiles = match profiles_named(config, name) {
        Ok(v) => v,
        Err(e) => return Err(e),
    };
    let ghost ps = profiles;
    let syncs = direct(profiles, push);
    let r = Ok(profile::Command::Sync(syncs));
    assert(directed(ps@, syncs@, push));
    assert(r matches Ok(profile::Command::Sync(v)) && v == syncs);
    r
}

/// Resolves a command against the store: adds and removes are checked and
/// passed on, pushes and pulls become synchronisations, a listing becomes
/// the leaf profiles. The reserved name cannot be added or removed.
pub fn validate_command(config: Config, command: Option<Command>) -> (r: Result<
    profile::Command,
    ProfileError,
>)
    ensures
        match command {
            None => r matches Err(ProfileError::MissingCommand),
            Some(Command::Add { name, local, remote }) => if name@ == all_name() {
                r matches Err(ProfileError::ReservedName(s)) && s@ == name@
            } else {
                r matches Ok(profile::Command::Add(c, n, t)) && c == config && n == name && t@
                    == seq![(local_key(), Item::Text(local)), (remote_key(), Item::Text(remote))]
            },
            Some(Command::Remove { name }) => if name@ == all_name() {
                r matches Err(ProfileError::ReservedName(s)) && s@ == name@
            } else {
                r matches Ok(profile::Command::Remove(c, n)) && c == config && n == name
            },
            Some(Command::Push { name }) => sync_outcome(config@, name@, true, r),
            Some(Command::Pull { name }) => sync_outcome(config@, name@, false, r),
            Some(Command::List) => r matches Ok(profile::Command::List(v)) && selects(
                v@,
                leaf_candidates(config@),
            ),
        },
{
    let command = match command {
        Some(c) => c,
        None => return Err(ProfileError::MissingCommand),
    };
    match command {
        Command::Add { name, local, remote } => {
            if is_all(&name) {
                return Err(ProfileError::ReservedName(name));
            }
            let table = match create_profile_table(local, remote) {
                Ok(t) => t,
                Err(e) => return Err(e),
            };
            Ok(profile::Command::Add(config, name, table))
        },
        Command::Remove { name } => {
            if is_all(&name) {
                return Err(ProfileError::ReservedName(name));
            }
            Ok(profile::Command::Remove(config, name))
        },
        Command::Push { name } => sync_command(&config, &name, true),
        Command::Pull { name } => sync_command(&config, &name, false),
        Command::List => {
            match config.get_leaves_profiles() {
                Ok(v) => Ok(profile::Command::List(v)),
                Err(e) => Err(e),
            }
        },
    }
}

} // verus!
