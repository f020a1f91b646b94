//! The profile store: a document of root entries, each a leaf profile or a
//! group of child profiles.

use vstd::prelude::*;

use crate::codec::{
    parse_document, parsed, rendered, parse_error_message, render_document,
    render_error_message,
};
use crate::error::ProfileError;
use crate::profile::{
    is_leaf, plain_paths, read_failure, segments, table_is_leaf, text_at, local_key,
    remote_key, expansion_of, Profile, ProfileName,
};
use crate::table::{lookup, put, without, Entries, Item, Table, NESTING};

verus! {

/// A profile table to read, with the name segments it is read under.
pub type Candidate = (Seq<Seq<char>>, Entries);

/// `p` is read from candidate table `t` under name segments `segs`.
pub open spec fn read_as(p: Profile, segs: Seq<Seq<char>>, t: Entries) -> bool {
    &&& segments(p.name) == segs
    &&& text_at(t, local_key()) matches Some(l) && expansion_of(l, p.local@)
    &&& text_at(t, remote_key()) matches Some(r) && expansion_of(r, p.remote@)
}

/// `v` holds, in order, profiles read from candidates of `cs` at positions
/// `ix`; every candidate whose paths need no environment is among them.
pub open spec fn selection(ix: Seq<int>, v: Seq<Profile>, cs: Seq<Candidate>) -> bool {
    &&& ix.len() == v.len()
    &&& forall|j: int| 0 <= j < ix.len() ==> 0 <= #[trigger] ix[j] < cs.len()
    &&& forall|j: int, k: int| 0 <= j < k < ix.len() ==> #[trigger] ix[j] < #[trigger] ix[k]
    &&& forall|j: int|
        0 <= j < ix.len() ==> read_as(#[trigger] v[j], cs[ix[j]].0, cs[ix[j]].1)
    &&& forall|k: int| 0 <= k < cs.len() && plain_paths(#[trigger] cs[k].1) ==> ix.contains(k)
}

/// The candidates that read, in order: those whose paths could not be
/// expanded are left out.
pub open spec fn selects(v: Seq<Profile>, cs: Seq<Candidate>) -> bool {
    exists|ix: Seq<int>| #[trigger] selection(ix, v, cs)
}

/// The child tables of group `t`, named under `parent`, in table order.
pub open spec fn group_candidates(parent: Seq<char>, t: Entries) -> Seq<Candidate>
    decreases t.len(),
{
    if t.len() == 0 {
        Seq::empty()
    } else {
        let rest = group_candidates(parent, t.drop_last());
        match t.last().1 {
            Item::Table(c) => rest.push((seq![parent, t.last().0], c@)),
            _ => rest,
        }
    }
}

/// The root entries of `doc` that are leaf profiles, in order.
pub open spec fn root_leaves(doc: Entries) -> Seq<Candidate>
    decreases doc.len(),
{
    if doc.len() == 0 {
        Seq::empty()
    } else {
        let rest = root_leaves(doc.drop_last());
        match doc.last().1 {
            Item::Table(t) => if is_leaf(t@) {
                rest.push((seq![doc.last().0], t@))
            } else {
                rest
            },
            _ => rest,
        }
    }
}

/// The child tables of every root group of `doc`, group after group.
pub open spec fn group_children(doc: Entries) -> Seq<Candidate>
    decreases doc.len(),
{
    if doc.len() == 0 {
        Seq::empty()
    } else {
        let rest = group_children(doc.drop_last());
        match doc.last().1 {
            Item::Table(t) => if is_leaf(t@) {
                rest
            } else {
                rest + group_candidates(doc.last().0, t@)
            },
            _ => rest,
        }
    }
}

/// Every leaf profile of `doc`: the root leaves, then the children of groups.
pub open spec fn leaf_candidates(doc: Entries) -> Seq<Candidate> {
    root_leaves(doc) + group_children(doc)
}

/// What a name resolves to in a document.
pub enum Resolution {
    /// One profile table, which must read.
    Single(Seq<Seq<char>>, Entries),
    /// The child tables of a group; those that do not read are left out.
    Group(Seq<Candidate>),
    /// A segment with no entry.
    Missing(Seq<char>),
    /// A segment whose entry is not a table.
    NotTable(Seq<char>),
}

/// What name segments `segs` address in `doc`.
pub open spec fn resolve(doc: Entries, segs: Seq<Seq<char>>) -> Resolution {
    match lookup(doc, segs[0]) {
        None => Resolution::Missing(segs[0]),
        Some(Item::Table(t)) => if segs.len() == 1 {
            if is_leaf(t@) {
                Resolution::Single(segs, t@)
            } else {
                Resolution::Group(group_candidates(segs[0], t@))
            }
        } else {
            match lookup(t@, segs[1]) {
                None => Resolution::Missing(segs[1]),
                Some(Item::Table(c)) => Resolution::Single(segs, c@),
                Some(_) => Resolution::NotTable(segs[1]),
            }
        },
        Some(_) => Resolution::NotTable(segs[0]),
    }
}

/// `r` is what reading the profiles of `res` gives.
pub open spec fn profiles_outcome(r: Result<Vec<Profile>, ProfileError>, res: Resolution) -> bool {
    match res {
        Resolution::Single(segs, t) => {
            &&& match r {
                Ok(v) => v@.len() == 1 && read_as(v@[0], segs, t),
                Err(e) => read_failure(e, t),
            }
            &&& plain_paths(t) ==> r is Ok
        },
        Resolution::Group(cs) => r matches Ok(v) && selects(v@, cs),
        Resolution::Missing(k) => r matches Err(ProfileError::NotFound(s)) && s@ == k,
        Resolution::NotTable(k) => r matches Err(ProfileError::NotATable(s)) && s@ == k,
    }
}

/// Adding candidate `c` after `cs` keeps a selection: `p` is the profile it
/// read to, or none when it did not read.
proof fn lemma_select_push(
    ix: Seq<int>,
    v: Seq<Profile>,
    cs: Seq<Candidate>,
    c: Candidate,
    p: Option<Profile>,
) -> (nix: Seq<int>)
    requires
        selection(ix, v, cs),
        match p {
            Some(p) => read_as(p, c.0, c.1),
            None => !plain_paths(c.1),
        },
    ensures
        selection(
            nix,
            match p {
                Some(p) => v.push(p),
                None => v,
            },
            cs.push(c),
        ),
{
    let ncs = cs.push(c);
    let n = cs.len() as int;
    match p {
        Some(p) => {
            let nix = ix.push(n);
            let nv = v.push(p);
            assert forall|j: int| 0 <= j < nix.len() implies read_as(
                #[trigger] nv[j],
                ncs[nix[j]].0,
                ncs[nix[j]].1,
            ) by {
                if j < ix.len() {
                    assert(nix[j] == ix[j]);
                    assert(nv[j] == v[j]);
                }
            }
            assert forall|k: int| 0 <= k < ncs.len() && plain_paths(#[trigger] ncs[k].1) implies nix.contains(k) by {
                if k < n {
                    assert(ncs[k] == cs[k]);
                    assert(ix.contains(k));
                    let j = choose|j: int| 0 <= j < ix.len() && ix[j] == k;
                    assert(nix[j] == k);
                } else {
                    assert(nix[ix.len() as int] == k);
                }
            }
            assert forall|j: int, k: int| 0 <= j < k < nix.len() implies #[trigger] nix[j] < #[trigger] nix[k] by {
                if k < ix.len() {
                    assert(ix[j] < ix[k]);
                } else {
                    assert(0 <= ix[j] < n);
                }
            }
            nix
        },
        None => {
            assert forall|k: int| 0 <= k < ncs.len() && plain_paths(#[trigger] ncs[k].1) implies ix.contains(k) by {
                assert(k < n);
                assert(ncs[k] == cs[k]);
            }
            ix
        },
    }
}

/// When every candidate reads without the environment, a selection takes
/// all of them, in order.
proof fn lemma_selection_total(ix: Seq<int>, v: Seq<Profile>, cs: Seq<Candidate>)
    requires
        selection(ix, v, cs),
        forall|k: int| 0 <= k < cs.len() ==> plain_paths(#[trigger] cs[k].1),
    ensures
        v.len() == cs.len(),
        forall|j: int| 0 <= j < v.len() ==> read_as(#[trigger] v[j], cs[j].0, cs[j].1),
{
    assert forall|k: int| 0 <= k < cs.len() implies ix.contains(k) by {
        assert(plain_paths(cs[k].1));
    }
    lemma_identity_prefix(ix, cs.len() as int, ix.len() as int);
    if ix.len() < cs.len() {
        let k = ix.len() as int;
        assert(plain_paths(cs[k].1));
        assert(ix.contains(k));
        let j = choose|j: int| 0 <= j < ix.len() && ix[j] == k;
        assert(ix[j] == j);
    } else if ix.len() > cs.len() {
        let n = cs.len() as int;
        assert(ix[n] == n);
    }
    assert forall|j: int| 0 <= j < v.len() implies read_as(#[trigger] v[j], cs[j].0, cs[j].1) by {
        assert(ix[j] == j);
    }
}

/// A strictly increasing index list below `n` that holds every index below
/// `n` starts 0, 1, 2, ...
proof fn lemma_identity_prefix(ix: Seq<int>, n: int, m: int)
    requires
        0 <= m <= ix.len(),
        forall|j: int| 0 <= j < ix.len() ==> 0 <= #[trigger] ix[j] < n,
        forall|j: int, k: int| 0 <= j < k < ix.len() ==> #[trigger] ix[j] < #[trigger] ix[k],
        forall|k: int| 0 <= k < n ==> ix.contains(k),
    ensures
        forall|j: int| 0 <= j < m ==> #[trigger] ix[j] == j,
    decreases m,
{
    if m > 0 {
        lemma_identity_prefix(ix, n, m - 1);
        let t = m - 1;
        if t > 0 {
            assert(ix[t - 1] == t - 1);
            assert(ix[t - 1] < ix[t]);
        }
        if ix[t] != t {
            assert(ix.contains(t));
            let j = choose|j: int| 0 <= j < ix.len() && ix[j] == t;
            if j < t {
                assert(ix[j] == j);
            } else if j > t {
                assert(ix[t] < ix[j]);
            }
        }
    }
}

/// Adding a leaf profile under a root name and reading that name gives the
/// one profile, with the table's paths, when they hold no `$`.
pub proof fn lemma_add_root_then_get(
    doc: Entries,
    n: Seq<char>,
    t: Table,
    r: Result<Vec<Profile>, ProfileError>,
)
    requires
        crate::table::keys_distinct(doc),
        is_leaf(t@),
        plain_paths(t@),
        profiles_outcome(r, resolve(put(doc, n, Item::Table(t)), seq![n])),
    ensures
        r matches Ok(v) && v@.len() == 1 && segments(v@[0].name) == seq![n] && text_at(
            t@,
            local_key(),
        ) == Some(v@[0].local@) && text_at(t@, remote_key()) == Some(v@[0].remote@),
{
    crate::table::lemma_put(doc, n, Item::Table(t));
}

/// Adding a child under a group that is not there makes the group, holding
/// just that child; reading the child's name gives the one profile, with the
/// table's paths, when they hold no `$`.
pub proof fn lemma_add_child_then_get(
    doc: Entries,
    g: Seq<char>,
    c: Seq<char>,
    t: Table,
    added: Result<(), ProfileError>,
    after: Entries,
    r: Result<Vec<Profile>, ProfileError>,
)
    requires
        lookup(doc, g) is None,
        child_added(doc, g, c, Item::Table(t), added, after),
        plain_paths(t@),
        profiles_outcome(r, resolve(after, seq![g, c])),
    ensures
        added is Ok,
        lookup(after, g) matches Some(Item::Table(grp)) && grp@ == seq![(c, Item::Table(t))]
            && !is_leaf(grp@),
        r matches Ok(v) && v@.len() == 1 && segments(v@[0].name) == seq![g, c] && text_at(
            t@,
            local_key(),
        ) == Some(v@[0].local@) && text_at(t@, remote_key()) == Some(v@[0].remote@),
{
    let e: Entries = seq![(c, Item::Table(t))];
    crate::table::lemma_key_pos(e, 0);
    crate::profile::lemma_key_literals();
    if is_leaf(e) {
        let i = crate::table::key_pos(e, local_key());
        let j = crate::table::key_pos(e, remote_key());
        assert(i == 0 && j == 0);
    }
}

/// A child cannot be added under a leaf: the store refuses, naming the leaf,
/// and stays as it was.
pub proof fn lemma_add_under_leaf(
    doc: Entries,
    g: Seq<char>,
    c: Seq<char>,
    item: Item,
    added: Result<(), ProfileError>,
    after: Entries,
)
    requires
        leaf_parent(doc, g),
        child_added(doc, g, c, item, added, after),
    ensures
        added matches Err(ProfileError::LeafConflict(s)) && s@ == g,
        after == doc,
{
}

/// Removing a group by its root name gives back every child, in order, when
/// no child's paths hold `$`; the group is then gone, and reading its name
/// again fails naming it.
pub proof fn lemma_remove_group(
    doc: Entries,
    g: Seq<char>,
    r: Result<Vec<Profile>, ProfileError>,
    after: Entries,
    again: Result<Vec<Profile>, ProfileError>,
)
    requires
        crate::table::keys_distinct(doc),
        lookup(doc, g) matches Some(Item::Table(grp)) && !is_leaf(grp@) && forall|k: int|
            0 <= k < group_candidates(g, grp@).len() ==> plain_paths(
                #[trigger] group_candidates(g, grp@)[k].1,
            ),
        profiles_outcome(r, resolve(doc, seq![g])),
        r is Ok ==> after == without(doc, g),
        profiles_outcome(again, resolve(after, seq![g])),
    ensures
        r matches Ok(v) && lookup(doc, g) matches Some(Item::Table(grp)) && v@.len()
            == group_candidates(g, grp@).len() && forall|j: int|
            0 <= j < v@.len() ==> read_as(
                #[trigger] v@[j],
                group_candidates(g, grp@)[j].0,
                group_candidates(g, grp@)[j].1,
            ),
        lookup(after, g) is None,
        again matches Err(ProfileError::NotFound(s)) && s@ == g,
{
    let grp = lookup(doc, g)->Some_0->Table_0;
    let cs = group_candidates(g, grp@);
    let v = r->Ok_0;
    let ix = choose|ix: Seq<int>| selection(ix, v@, cs);
    lemma_selection_total(ix, v@, cs);
    crate::table::lemma_without(doc, g);
}

/// Reads `table` under `name` and appends the profile to `out` when it reads.
fn read_into(
    out: &mut Vec<Profile>,
    name: ProfileName,
    table: &Table,
    Ghost(cs): Ghost<Seq<Candidate>>,
    Ghost(ix): Ghost<Seq<int>>,
) -> (nix: Ghost<Seq<int>>)
    requires
        selection(ix, old(out)@, cs),
    ensures
        selection(nix@, final(out)@, cs.push((segments(name), table@))),
{
    let ghost c = (segments(name), table@);
    match Profile::from_table(name, table) {
        Ok(p) => {
            let ghost nix = lemma_select_push(ix, out@, cs, c, Some(p));
            out.push(p);
            Ghost(nix)
        },
        Err(_) => {
            let ghost nix = lemma_select_push(ix, out@, cs, c, None);
            Ghost(nix)
        },
    }
}

/// The table under `name`, or the error that names the segment.
fn get_sub_table<'a>(map: &'a Table, name: &str) -> (r: Result<&'a Table, ProfileError>)
    ensures
        match lookup(map@, name@) {
            None => r matches Err(ProfileError::NotFound(s)) && s@ == name@,
            Some(Item::Table(t)) => r matches Ok(x) && *x == t,
            Some(_) => r matches Err(ProfileError::NotATable(s)) && s@ == name@,
        },
{
    match map.get(name) {
        None => Err(ProfileError::NotFound(name.to_owned())),
        Some(Item::Table(t)) => Ok(t),
        Some(_) => Err(ProfileError::NotATable(name.to_owned())),
    }
}

/// The children of group `group`, named under `parent`, that read.
fn read_group(parent: &String, group: &Table) -> (r: Vec<Profile>)
    ensures
        selects(r@, group_candidates(parent@, group@)),
{
    let mut out: Vec<Profile> = Vec::new();
    let ghost mut ix: Seq<int> = Seq::empty();
    let mut i: usize = 0;
    assert(group@.subrange(0, 0) =~= Seq::<(Seq<char>, Item)>::empty());
    while i < group.len()
        invariant
            i <= group@.len(),
            selection(ix, out@, group_candidates(parent@, group@.subrange(0, i as int))),
        decreases group@.len() - i,
    {
        let (key, item) = group.entry(i);
        let ghost before = group_candidates(parent@, group@.subrange(0, i as int));
        assert(group@.subrange(0, i + 1).drop_last() =~= group@.subrange(0, i as int));
        match item {
            Item::Table(t) => {
                let name = ProfileName::Child(parent.clone(), key.clone());
                let Ghost(nix) = read_into(&mut out, name, t, Ghost(before), Ghost(ix));
                proof {
                    ix = nix;
                }
            },
            _ => {},
        }
        i = i + 1;
    }
    assert(group@.subrange(0, group@.len() as int) =~= group@);
    out
}

/// The entries that group `parent` holds once `child` is bound to `item` in
/// it: a group that is not there yet starts empty; a leaf or a non-table
/// cannot take children.
pub open spec fn group_after(doc: Entries, parent: Seq<char>, child: Seq<char>, item: Item) -> Option<
    Entries,
> {
    match lookup(doc, parent) {
        None => Some(seq![(child, item)]),
        Some(Item::Table(g)) => if is_leaf(g@) {
            None
        } else {
            Some(put(g@, child, item))
        },
        Some(_) => None,
    }
}

/// Why `parent` cannot take children: it is a leaf, or not a table.
pub open spec fn parent_refused(doc: Entries, parent: Seq<char>, e: ProfileError) -> bool {
    match lookup(doc, parent) {
        Some(Item::Table(_)) => e matches ProfileError::LeafConflict(s) && s@ == parent,
        _ => e matches ProfileError::NotATable(s) && s@ == parent,
    }
}

/// `new` is `old` with `key` bound, in place, to a table of entries `t`.
pub open spec fn rebound(old: Entries, key: Seq<char>, t: Entries, new: Entries) -> bool {
    &&& lookup(new, key) matches Some(Item::Table(g)) && g@ == t
    &&& new == put(old, key, lookup(new, key)->Some_0)
}

/// `r` and `after` are what binding `item` as child `child` of group
/// `parent` in `doc` gives.
pub open spec fn child_added(
    doc: Entries,
    parent: Seq<char>,
    child: Seq<char>,
    item: Item,
    r: Result<(), ProfileError>,
    after: Entries,
) -> bool {
    match group_after(doc, parent, child, item) {
        Some(g) => r is Ok && rebound(doc, parent, g, after),
        None => r matches Err(e) && parent_refused(doc, parent, e) && after == doc,
    }
}

/// `parent` names a leaf, so it has no child to remove.
pub open spec fn leaf_parent(doc: Entries, parent: Seq<char>) -> bool {
    lookup(doc, parent) matches Some(Item::Table(g)) && is_leaf(g@)
}

/// The profile store.
pub struct Config {
    toml: Table,
}

impl View for Config {
    type V = Entries;

    closed spec fn view(&self) -> Entries {
        self.toml@
    }
}

impl Config {
    /// What the store's document holds, with nested tables read through.
    pub closed spec fn node(&self) -> Seq<(Seq<char>, crate::codec::Node)> {
        self.toml.node()
    }

    /// The store read from TOML text.
    pub fn load(text: &str) -> (r: Result<Config, ProfileError>)
        ensures
            r is Ok <==> parsed(text@) is Some,
            r matches Ok(c) ==> parsed(text@) == Some(c.node()),
            r is Err ==> r matches Err(ProfileError::Parse(_)),
    {
        match parse_document(text) {
            Ok(t) => Ok(Config { toml: Table::from_toml(t, NESTING) }),
            Err(e) => Err(ProfileError::Parse(parse_error_message(&e))),
        }
    }

    /// The store as TOML text.
    pub fn save(&self) -> (r: Result<String, ProfileError>)
        ensures
            r is Ok <==> rendered(self.node()) is Some,
            r matches Ok(s) ==> rendered(self.node()) == Some(s@),
            r is Err ==> r matches Err(ProfileError::Render(_)),
    {
        match render_document(&self.toml.to_toml()) {
            Ok(s) => Ok(s),
            Err(e) => Err(ProfileError::Render(render_error_message(&e))),
        }
    }

    /// The store over a document.
    pub fn new(toml: Table) -> (r: Config)
        ensures
            r@ == toml@,
    {
        Config { toml }
    }

    /// The document.
    pub fn table(&self) -> (r: &Table)
        ensures
            r@ == self@,
    {
        &self.toml
    }

    /// The profiles a name addresses: the leaf or child it names, or every
    /// child of the group it names.
    pub fn get_profiles(&self, profile_name: &ProfileName) -> (r: Result<Vec<Profile>, ProfileError>)
        ensures
            profiles_outcome(r, resolve(self@, segments(*profile_name))),
    {
        match profile_name {
            ProfileName::Root(name) => {
                let root = match get_sub_table(&self.toml, name.as_str()) {
                    Ok(t) => t,
                    Err(e) => return Err(e),
                };
                if table_is_leaf(root) {
                    match Profile::from_table(ProfileName::Root(name.clone()), root) {
                        Ok(p) => Ok(vec![p]),
                        Err(e) => Err(e),
                    }
                } else {
                    Ok(read_group(name, root))
                }
            },
            ProfileName::Child(parent_name, name) => {
                let root = match get_sub_table(&self.toml, parent_name.as_str()) {
                    Ok(t) => t,
                    Err(e) => return Err(e),
                };
                let table = match get_sub_table(root, name.as_str()) {
                    Ok(t) => t,
                    Err(e) => return Err(e),
                };
                let child = ProfileName::Child(parent_name.clone(), name.clone());
                match Profile::from_table(child, table) {
                    Ok(p) => Ok(vec![p]),
                    Err(e) => Err(e),
                }
            },
        }
    }

    /// Every leaf profile: the root leaves, then the children of each root
    /// group; groups themselves are not profiles.
    pub fn get_leaves_profiles(&self) -> (r: Result<Vec<Profile>, ProfileError>)
        ensures
            r matches Ok(v) && selects(v@, leaf_candidates(self@)),
    {
        let doc = &self.toml;
        let mut out: Vec<Profile> = Vec::new();
        let ghost mut ix: Seq<int> = Seq::empty();
        let mut i: usize = 0;
        assert(doc@.subrange(0, 0) =~= Seq::<(Seq<char>, Item)>::empty());
        while i < doc.len()
            invariant
                i <= doc@.len(),
                selection(ix, out@, root_leaves(doc@.subrange(0, i as int))),
            decreases doc@.len() - i,
        {
            let (key, item) = doc.entry(i);
            let ghost before = root_leaves(doc@.subrange(0, i as int));
            assert(doc@.subrange(0, i + 1).drop_last() =~= doc@.subrange(0, i as int));
            match item {
                Item::Table(t) => {
                    if table_is_leaf(t) {
                        let name = ProfileName::Root(key.clone());
                        let Ghost(nix) = read_into(&mut out, name, t, Ghost(before), Ghost(ix));
                        proof {
                            ix = nix;
                        }
                    }
                },
                _ => {},
            }
            i = i + 1;
        }
        assert(doc@.subrange(0, doc@.len() as int) =~= doc@);
        let ghost base = root_leaves(doc@);
        assert(base + group_children(doc@.subrange(0, 0)) =~= base);
        i = 0;
        while i < doc.len()
            invariant
                i <= doc@.len(),
                base == root_leaves(doc@),
                selection(ix, out@, base + group_children(doc@.subrange(0, i as int))),
            decreases doc@.len() - i,
        {
            let (key, item) = doc.entry(i);
            assert(doc@.subrange(0, i + 1).drop_last() =~= doc@.subrange(0, i as int));
            let ghost pre = base + group_children(doc@.subrange(0, i as int));
            match item {
                Item::Table(t) => {
                    if !table_is_leaf(t) {
                        let mut j: usize = 0;
                        assert(t@.subrange(0, 0) =~= Seq::<(Seq<char>, Item)>::empty());
                        assert(pre + group_candidates(key@, t@.subrange(0, 0)) =~= pre);
                        while j < t.len()
                            invariant
                                j <= t@.len(),
                                selection(
                                    ix,
                                    out@,
                                    pre + group_candidates(key@, t@.subrange(0, j as int)),
                                ),
                            decreases t@.len() - j,
                        {
                            let (child_key, child) = t.entry(j);
                            let ghost before = pre + group_candidates(key@, t@.subrange(0, j as int));
                            assert(t@.subrange(0, j + 1).drop_last() =~= t@.subrange(0, j as int));
                            match child {
                                Item::Table(c) => {
                                    let name = ProfileName::Child(key.clone(), child_key.clone());
                                    let Ghost(nix) = read_into(
                                        &mut out,
                                        name,
                                        c,
                                        Ghost(before),
                                        Ghost(ix),
                                    );
                                    proof {
                                        ix = nix;
                                        assert(before.push((seq![key@, child_key@], c@)) =~= pre
                                            + group_candidates(key@, t@.subrange(0, j + 1)));
                                    }
                                },
                                _ => {
                                    assert(before =~= pre + group_candidates(key@, t@.subrange(0, j + 1)));
                                },
                            }
                            j = j + 1;
                        }
                        assert(t@.subrange(0, t@.len() as int) =~= t@);
                        assert(pre + group_candidates(key@, t@) =~= base + group_children(
                            doc@.subrange(0, i + 1),
                        ));
                    }
                },
                _ => {},
            }
            i = i + 1;
        }
        Ok(out)
    }

    /// Binds a profile table to a name. A root name takes it whatever was
    /// there; a child name puts it in its group, which is made when missing.
    pub fn add_profile(&mut self, name: ProfileName, profile: Table) -> (r: Result<(), ProfileError>)
        ensures
            match name {
                ProfileName::Root(n) => r is Ok && final(self)@ == put(
                    old(self)@,
                    n@,
                    Item::Table(profile),
                ),
                ProfileName::Child(p, c) => child_added(
                    old(self)@,
                    p@,
                    c@,
                    Item::Table(profile),
                    r,
                    final(self)@,
                ),
            },
    {
        match name {
            ProfileName::Root(n) => {
                self.toml.insert(n, Item::Table(profile));
                Ok(())
            },
            ProfileName::Child(parent_name, child_name) => {
                match self.toml.get(parent_name.as_str()) {
                    Some(Item::Table(g)) => {
                        if table_is_leaf(g) {
                            return Err(ProfileError::LeafConflict(parent_name));
                        }
                    },
                    Some(_) => {
                        return Err(ProfileError::NotATable(parent_name));
                    },
                    None => {},
                }
                let ghost old_doc = self.toml@;
                let ghost pk = parent_name@;
                let ghost ck = child_name@;
                let ghost item = Item::Table(profile);
                let placeholder = Item::Table(Table::new());
                let ghost ph_item = placeholder;
                let taken = self.toml.insert(parent_name.clone(), placeholder);
                let mut group = match taken {
                    Some(Item::Table(g)) => g,
                    _ => Table::new(),
                };
                assert(put(Seq::<(Seq<char>, Item)>::empty(), ck, item) =~= seq![(ck, item)]);
                group.insert(child_name, Item::Table(profile));
                let ghost gi = Item::Table(group);
                self.toml.insert(parent_name, Item::Table(group));
                proof {
                    crate::table::lemma_put_put(old_doc, pk, ph_item, gi);
                    crate::table::lemma_put(old_doc, pk, gi);
                }
                Ok(())
            },
        }
    }

    /// Takes out what a name addresses and gives back its profiles. A root
    /// name takes the whole entry, group or leaf; a child name takes one
    /// child of a group. On an error nothing changes.
    pub fn remove_profile(&mut self, profile_name: ProfileName) -> (r: Result<Vec<Profile>, ProfileError>)
        ensures
            r is Err ==> final(self)@ == old(self)@,
            match profile_name {
                ProfileName::Root(n) => {
                    &&& profiles_outcome(r, resolve(old(self)@, seq![n@]))
                    &&& r is Ok ==> final(self)@ == without(old(self)@, n@)
                },
                ProfileName::Child(p, c) => if leaf_parent(old(self)@, p@) {
                    r matches Err(ProfileError::LeafConflict(s)) && s@ == p@
                } else {
                    &&& profiles_outcome(r, resolve(old(self)@, seq![p@, c@]))
                    &&& r is Ok ==> (lookup(old(self)@, p@) matches Some(Item::Table(g)) && rebound(
                        old(self)@,
                        p@,
                        without(g@, c@),
                        final(self)@,
                    ))
                },
            },
    {
        match &profile_name {
            ProfileName::Root(name) => {
                let profiles = match self.get_profiles(&profile_name) {
                    Ok(v) => v,
                    Err(e) => return Err(e),
                };
                self.toml.remove(name.as_str());
                Ok(profiles)
            },
            ProfileName::Child(parent_name, name) => {
                let group = match get_sub_table(&self.toml, parent_name.as_str()) {
                    Ok(t) => t,
                    Err(e) => return Err(e),
                };
                if table_is_leaf(group) {
                    return Err(ProfileError::LeafConflict(parent_name.clone()));
                }
                let table = match get_sub_table(group, name.as_str()) {
                    Ok(t) => t,
                    Err(e) => return Err(e),
                };
                let child = ProfileName::Child(parent_name.clone(), name.clone());
                let profile = match Profile::from_table(child, table) {
                    Ok(p) => p,
                    Err(e) => return Err(e),
                };
                let ghost old_doc = self.toml@;
                let ghost pk = parent_name@;
                let placeholder = Item::Table(Table::new());
                let ghost ph_item = placeholder;
                let taken = self.toml.insert(parent_name.clone(), placeholder);
                let mut group = match taken {
                    Some(Item::Table(g)) => g,
                    _ => Table::new(),
                };
                group.remove(name.as_str());
                let ghost gi = Item::Table(group);
                self.toml.insert(parent_name.clone(), Item::Table(group));
                proof {
                    crate::table::lemma_put_put(old_doc, pk, ph_item, gi);
                    crate::table::lemma_put(old_doc, pk, gi);
                }
                Ok(vec![profile])
            },
        }
    }
}

} // verus!
