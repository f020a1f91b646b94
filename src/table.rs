//! An ordered table of keyed items, the shape of the profile document.

use vstd::prelude::*;

use crate::codec::{
    distinct_keys, shape_of, table_node, table_value, text_value, toml_entries, toml_table,
    value_entries, value_node, Node, Shape,
};

verus! {

/// A value held in the document.
#[derive(Debug, PartialEq)]
pub enum Item {
    /// A string.
    Text(String),
    /// A nested table.
    Table(Table),
    /// Any other value (number, boolean, date, array), carried through unread.
    Other(toml::Value),
}

/// Keys as character sequences, each with its item, in table order.
pub type Entries = Seq<(Seq<char>, Item)>;

/// No key occurs twice.
pub open spec fn keys_distinct(e: Entries) -> bool {
    forall|i: int, j: int|
        #![trigger e[i], e[j]]
        0 <= i < e.len() && 0 <= j < e.len() && i != j ==> e[i].0 != e[j].0
}

pub open spec fn has_key(e: Entries, k: Seq<char>) -> bool {
    exists|i: int| 0 <= i < e.len() && #[trigger] e[i].0 == k
}

/// Where key `k` stands (meaningful when `has_key(e, k)`).
pub open spec fn key_pos(e: Entries, k: Seq<char>) -> int {
    choose|i: int| 0 <= i < e.len() && #[trigger] e[i].0 == k
}

/// The item under key `k`, if any.
pub open spec fn lookup(e: Entries, k: Seq<char>) -> Option<Item> {
    if has_key(e, k) {
        Some(e[key_pos(e, k)].1)
    } else {
        None
    }
}

/// `e` with `k` bound to `v`: in place when `k` is there, else at the end.
pub open spec fn put(e: Entries, k: Seq<char>, v: Item) -> Entries {
    if has_key(e, k) {
        e.update(key_pos(e, k), (k, v))
    } else {
        e.push((k, v))
    }
}

/// `e` without key `k`; the other entries keep their order.
pub open spec fn without(e: Entries, k: Seq<char>) -> Entries {
    if has_key(e, k) {
        e.remove(key_pos(e, k))
    } else {
        e
    }
}

/// With distinct keys, the position of a key is the one index that holds it.
pub proof fn lemma_key_pos(e: Entries, i: int)
    requires
        keys_distinct(e),
        0 <= i < e.len(),
    ensures
        has_key(e, e[i].0),
        key_pos(e, e[i].0) == i,
        lookup(e, e[i].0) == Some(e[i].1),
{
    assert(e[i].0 == e[i].0);
    let j = key_pos(e, e[i].0);
    assert(e[j].0 == e[i].0);
}

/// Binding a key and looking it up gives the bound item back; keys stay distinct.
pub proof fn lemma_put(e: Entries, k: Seq<char>, v: Item)
    requires
        keys_distinct(e),
    ensures
        keys_distinct(put(e, k, v)),
        lookup(put(e, k, v), k) == Some(v),
        put(e, k, v).len() == if has_key(e, k) { e.len() } else { e.len() + 1 },
{
    let n = put(e, k, v);
    if has_key(e, k) {
        let i = key_pos(e, k);
        assert(n[i].0 == k);
        assert forall|a: int, b: int|
            0 <= a < n.len() && 0 <= b < n.len() && a != b implies #[trigger] n[a].0
            != #[trigger] n[b].0 by {
            assert(e[a].0 == n[a].0 && e[b].0 == n[b].0);
        }
        lemma_key_pos(n, i);
    } else {
        let i = e.len() as int;
        assert forall|a: int, b: int|
            0 <= a < n.len() && 0 <= b < n.len() && a != b implies #[trigger] n[a].0
            != #[trigger] n[b].0 by {
            if a == i {
                assert(!(e[b].0 == k));
            } else if b == i {
                assert(!(e[a].0 == k));
            }
        }
        lemma_key_pos(n, i);
    }
}

/// Binding a key twice is binding it once, to the second item.
pub proof fn lemma_put_put(e: Entries, k: Seq<char>, v1: Item, v2: Item)
    requires
        keys_distinct(e),
    ensures
        put(put(e, k, v1), k, v2) == put(e, k, v2),
{
    lemma_put(e, k, v1);
    let n = put(e, k, v1);
    if has_key(e, k) {
        let i = key_pos(e, k);
        lemma_key_pos(e, i);
        lemma_key_pos(n, i);
        assert(put(n, k, v2) =~= put(e, k, v2));
    } else {
        let i = e.len() as int;
        lemma_key_pos(n, i);
        assert(put(n, k, v2) =~= put(e, k, v2));
    }
}

/// After a key is taken out it is no longer there.
pub proof fn lemma_without(e: Entries, k: Seq<char>)
    requires
        keys_distinct(e),
    ensures
        !has_key(without(e, k), k),
        lookup(without(e, k), k) is None,
{
    if has_key(e, k) {
        let i = key_pos(e, k);
        let n = without(e, k);
        assert forall|j: int| 0 <= j < n.len() implies #[trigger] n[j].0 != k by {
            let j2 = if j < i { j } else { j + 1 };
            assert(n[j] == e[j2]);
            assert(e[i].0 == k);
        }
    }
}

/// Levels of tables below the root that are read from TOML; tables nested
/// deeper are carried as [`Item::Other`].
pub const NESTING: usize = 2;

/// An ordered table: keys are distinct and keep the order in which they
/// were first inserted.
#[derive(Debug, PartialEq)]
pub struct Table {
    entries: Vec<(String, Item)>,
}

impl View for Table {
    type V = Entries;

    closed spec fn view(&self) -> Entries {
        self.entries@.map_values(|p: (String, Item)| (p.0@, p.1))
    }
}

impl Table {
    #[verifier::type_invariant]
    spec fn inv(self) -> bool {
        keys_distinct(self@)
    }

    pub fn new() -> (r: Table)
        ensures
            r@ == Seq::<(Seq<char>, Item)>::empty(),
    {
        let r = Table { entries: Vec::new() };
        assert(r@ =~= Seq::<(Seq<char>, Item)>::empty());
        r
    }

    pub fn len(&self) -> (r: usize)
        ensures
            r == self@.len(),
            keys_distinct(self@),
    {
        proof {
            use_type_invariant(self);
        }
        self.entries.len()
    }

    /// The key and the item at position `i`.
    pub fn entry(&self, i: usize) -> (r: (&String, &Item))
        requires
            i < self@.len(),
        ensures
            r.0@ == self@[i as int].0,
            *r.1 == self@[i as int].1,
    {
        let p = &self.entries[i];
        (&p.0, &p.1)
    }

    fn position(&self, key: &str) -> (r: Option<usize>)
        ensures
            match r {
                Some(i) => i < self@.len() && self@[i as int].0 == key@,
                None => !has_key(self@, key@),
            },
    {
        let k: String = key.to_owned();
        let mut i: usize = 0;
        while i < self.entries.len()
            invariant
                i <= self@.len(),
                self@.len() == self.entries@.len(),
                k@ == key@,
                forall|j: int| 0 <= j < i ==> #[trigger] self@[j].0 != key@,
            decreases self@.len() - i,
        {
            if self.entries[i].0 == k {
                return Some(i);
            }
            i = i + 1;
        }
        None
    }

    pub fn contains_key(&self, key: &str) -> (r: bool)
        ensures
            r == has_key(self@, key@),
    {
        self.position(key).is_some()
    }

    pub fn get(&self, key: &str) -> (r: Option<&Item>)
        ensures
            keys_distinct(self@),
            match r {
                Some(x) => lookup(self@, key@) == Some(*x),
                None => lookup(self@, key@) is None,
            },
    {
        proof {
            use_type_invariant(self);
        }
        match self.position(key) {
            Some(i) => {
                proof {
                    lemma_key_pos(self@, i as int);
                }
                Some(&self.entries[i].1)
            },
            None => None,
        }
    }

    /// Binds `key` to `item`, in place when `key` is there, else at the end;
    /// gives back the item that was there.
    pub fn insert(&mut self, key: String, item: Item) -> (r: Option<Item>)
        ensures
            r == lookup(old(self)@, key@),
            final(self)@ == put(old(self)@, key@, item),
            keys_distinct(old(self)@),
    {
        proof {
            use_type_invariant(&*self);
        }
        let ghost e = self@;
        let pos = self.position(key.as_str());
        let mut entries: Vec<(String, Item)> = Vec::new();
        std::mem::swap(&mut entries, &mut self.entries);
        let ghost k = key@;
        match pos {
            Some(i) => {
                proof {
                    lemma_key_pos(e, i as int);
                }
                let (_, old_item) = entries.remove(i);
                entries.insert(i, (key, item));
                let ghost nv = entries@.map_values(|p: (String, Item)| (p.0@, p.1));
                assert(nv =~= e.update(i as int, (k, item)));
                self.entries = entries;
                Some(old_item)
            },
            None => {
                entries.push((key, item));
                let ghost nv = entries@.map_values(|p: (String, Item)| (p.0@, p.1));
                assert(nv =~= e.push((k, item)));
                assert forall|a: int, b: int|
                    0 <= a < nv.len() && 0 <= b < nv.len() && a != b implies
                    #[trigger] nv[a].0 != #[trigger] nv[b].0 by {
                    if a == e.len() as int {
                        assert(!(e[b].0 == k));
                    } else if b == e.len() as int {
                        assert(!(e[a].0 == k));
                    }
                }
                self.entries = entries;
                None
            },
        }
    }

    /// Takes out the item under `key`, if any; the rest keep their order.
    pub fn remove(&mut self, key: &str) -> (r: Option<Item>)
        ensures
            r == lookup(old(self)@, key@),
            final(self)@ == without(old(self)@, key@),
            keys_distinct(old(self)@),
    {
        proof {
            use_type_invariant(&*self);
        }
        let ghost e = self@;
        match self.position(key) {
            Some(i) => {
                proof {
                    lemma_key_pos(e, i as int);
                }
                let mut entries: Vec<(String, Item)> = Vec::new();
                std::mem::swap(&mut entries, &mut self.entries);
                let (_, item) = entries.remove(i);
                let ghost nv = entries@.map_values(|p: (String, Item)| (p.0@, p.1));
                assert(nv =~= e.remove(i as int));
                assert forall|a: int, b: int|
                    0 <= a < nv.len() && 0 <= b < nv.len() && a != b implies
                    #[trigger] nv[a].0 != #[trigger] nv[b].0 by {
                    let a2 = if a < i { a } else { a + 1 };
                    let b2 = if b < i { b } else { b + 1 };
                    assert(e[a2].0 != e[b2].0);
                }
                self.entries = entries;
                Some(item)
            },
            None => None,
        }
    }

    /// The entries, in order.
    pub fn into_entries(self) -> (r: Vec<(String, Item)>)
        ensures
            r@.map_values(|p: (String, Item)| (p.0@, p.1)) == self@,
    {
        self.entries
    }

    /// What the table holds, with nested tables read through.
    pub closed spec fn node(&self) -> Seq<(Seq<char>, Node)> {
        nodes_of(self.entries@)
    }

    /// The document read from a TOML table, tables down to `depth` levels
    /// below it read into [`Table`]s; what it holds is what `t` holds.
    pub(crate) fn from_toml(t: toml::Table, depth: usize) -> (r: Table)
        ensures
            r.node() == table_node(t),
        decreases depth, 1usize,
    {
        let mut entries = toml_entries(t);
        let ghost all = entries@;
        let mut r = Table::new();
        assert(r@.len() == 0);
        assert(r.entries@.map_values(|p: (String, Item)| (p.0@, p.1)).len() == r.entries@.len());
        assert(r.entries@ =~= Seq::<(String, Item)>::empty());
        assert(nodes_of(r.entries@) =~= value_entries(all).subrange(0, 0));
        while entries.len() > 0
            invariant
                distinct_keys(all),
                all.len() == r.entries@.len() + entries@.len(),
                entries@ == all.subrange(r.entries@.len() as int, all.len() as int),
                nodes_of(r.entries@) == value_entries(all).subrange(0, r.entries@.len() as int),
                forall|i: int|
                    0 <= i < r.entries@.len() ==> #[trigger] r.entries@[i].0@ == all[i].0@,
            decreases entries@.len(),
        {
            let ghost n = r.entries@.len() as int;
            let (k, v) = entries.remove(0);
            assert(all[n] == (k, v));
            let item = Item::from_toml(v, depth);
            proof {
                use_type_invariant(&r);
                assert(!has_key(r@, k@)) by {
                    assert forall|i: int| 0 <= i < r@.len() implies #[trigger] r@[i].0 != k@ by {
                        assert(all[i].0@ != all[n].0@);
                    }
                }
            }
            let ghost old_entries = r.entries@;
            let ghost target = old_entries.push((k, item));
            r.insert(k, item);
            proof {
                assert(r@ =~= old_entries.map_values(|p: (String, Item)| (p.0@, p.1)).push(
                    (target.last().0@, target.last().1),
                ));
                assert(r.entries@.len() == target.len());
                assert forall|i: int| 0 <= i < target.len() implies #[trigger] r.entries@[i].0@
                    == target[i].0@ && r.entries@[i].1 == target[i].1 by {
                    assert(r@[i] == (r.entries@[i].0@, r.entries@[i].1));
                }
                lemma_nodes_view(r.entries@, target);
                assert(target.drop_last() =~= old_entries);
                lemma_push_entries(old_entries, target);
                assert(value_entries(all).subrange(0, n + 1) =~= value_entries(all).subrange(
                    0,
                    n,
                ).push((target.last().0@, value_node(v))));
            }
        }
        assert(value_entries(all).subrange(0, all.len() as int) =~= value_entries(all));
        r
    }

    /// The TOML table holding this document.
    pub(crate) fn to_toml(&self) -> (r: toml::Table)
        ensures
            table_node(r) == self.node(),
        decreases self,
    {
        proof {
            use_type_invariant(self);
        }
        let mut out: Vec<(String, toml::Value)> = Vec::new();
        let mut i: usize = 0;
        while i < self.entries.len()
            invariant
                i <= self.entries@.len(),
                out@.len() == i,
                value_entries(out@) == nodes_of(self.entries@.subrange(0, i as int)),
                forall|j: int| 0 <= j < i ==> #[trigger] out@[j].0@ == self@[j].0,
            decreases self.entries.len() - i,
        {
            let p = &self.entries[i];
            assert(decreases_to!(self => p.1));
            let v = p.1.to_toml();
            let ghost before = out@;
            out.push((p.0.clone(), v));
            proof {
                let pre = self.entries@.subrange(0, i + 1);
                assert(pre.drop_last() =~= self.entries@.subrange(0, i as int));
                assert(value_entries(out@) =~= value_entries(before).push((p.0@, value_node(v))));
            }
            i = i + 1;
        }
        assert(self.entries@.subrange(0, self.entries@.len() as int) =~= self.entries@);
        assert(distinct_keys(out@)) by {
            assert forall|a: int, b: int|
                0 <= a < out@.len() && 0 <= b < out@.len() && a != b implies #[trigger] out@[a].0@
                != #[trigger] out@[b].0@ by {
                assert(self@[a].0 != self@[b].0);
            }
        }
        toml_table(out)
    }
}

/// What the keyed items hold, with nested tables read through.
pub closed spec fn nodes_of(es: Seq<(String, Item)>) -> Seq<(Seq<char>, Node)>
    decreases es,
{
    if es.len() == 0 {
        Seq::empty()
    } else {
        nodes_of(es.drop_last()).push((es.last().0@, item_node(es.last().1)))
    }
}

/// What an item holds, with nested tables read through.
pub closed spec fn item_node(item: Item) -> Node
    decreases item,
{
    match item {
        Item::Text(s) => Node::Text(s@),
        Item::Table(t) => Node::Table(nodes_of(t.entries@)),
        Item::Other(v) => value_node(v),
    }
}

/// The nodes of keyed items depend only on the keys' characters and the items.
proof fn lemma_nodes_view(es: Seq<(String, Item)>, fs: Seq<(String, Item)>)
    requires
        es.len() == fs.len(),
        forall|i: int| 0 <= i < es.len() ==> #[trigger] es[i].0@ == fs[i].0@ && es[i].1 == fs[i].1,
    ensures
        nodes_of(es) == nodes_of(fs),
    decreases es.len(),
{
    if es.len() > 0 {
        lemma_nodes_view(es.drop_last(), fs.drop_last());
    }
}

/// Appending an entry appends its node.
proof fn lemma_push_entries(es: Seq<(String, Item)>, ns: Seq<(String, Item)>)
    requires
        ns.len() == es.len() + 1,
        ns.drop_last() == es,
    ensures
        nodes_of(ns) == nodes_of(es).push((ns.last().0@, item_node(ns.last().1))),
{
}

impl Item {
    /// The item read from a TOML value; a table is read into a [`Table`]
    /// only where `depth` is above zero. It holds what `v` holds.
    pub(crate) fn from_toml(v: toml::Value, depth: usize) -> (r: Item)
        ensures
            item_node(r) == value_node(v),
        decreases depth, 0usize,
    {
        match shape_of(v) {
            Shape::Text(s) => Item::Text(s),
            Shape::Table(t) => {
                if depth == 0 {
                    Item::Other(table_value(t))
                } else {
                    Item::Table(Table::from_toml(t, depth - 1))
                }
            },
            Shape::Other(v) => Item::Other(v),
        }
    }

    /// The TOML value holding this item.
    pub(crate) fn to_toml(&self) -> (r: toml::Value)
        ensures
            value_node(r) == item_node(*self),
        decreases self,
    {
        match self {
            Item::Text(s) => text_value(s.clone()),
            Item::Table(t) => table_value(t.to_toml()),
            Item::Other(v) => v.clone(),
        }
    }
}

} // verus!
