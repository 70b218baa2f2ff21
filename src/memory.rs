use vstd::prelude::*;

use crate::error::KvError;
use crate::pb::{Kvpair, Value, ValueModel};
use crate::storage::{finds, lists_table, Contents, Storage, StorageIter};
use dashmap::DashMap;

verus! {

#[verifier::external_type_specification]
#[verifier::external_body]
#[verifier::reject_recursive_types(K)]
#[verifier::reject_recursive_types(V)]
#[verifier::reject_recursive_types(S)]
pub struct ExDashMap<K, V, S>(DashMap<K, V, S>);

/// What a concurrent map of the in-memory backend holds: the value of each
/// `(table, key)`.
pub uninterp spec fn dash_contents(m: DashMap<(String, String), Value>) -> Map<
    (Seq<char>, Seq<char>),
    ValueModel,
>;

/// Relies on `DashMap::new`: a new map is empty.
#[verifier::external_body]
fn dash_new() -> (r: DashMap<(String, String), Value>)
    ensures
        dash_contents(r).is_empty(),
{
    DashMap::new()
}

/// Relies on `DashMap::get`: the entry of the key, if present; the value is
/// cloned out of the guard.
#[verifier::external_body]
fn dash_get(m: &DashMap<(String, String), Value>, table: &str, key: &str) -> (r: Option<Value>)
    ensures
        finds(dash_contents(*m), table@, key@, r),
{
    m.get(&(table.to_owned(), key.to_owned())).map(|e| e.value().clone())
}

/// Relies on `DashMap::insert`: the key now maps to `value`, and the value it
/// had before is returned.
#[verifier::external_body]
fn dash_insert(m: &mut DashMap<(String, String), Value>, table: &str, key: String, value: Value) -> (r: Option<Value>)
    ensures
        finds(dash_contents(*old(m)), table@, key@, r),
        dash_contents(*final(m)) == dash_contents(*old(m)).insert((table@, key@), value@),
{
    m.insert((table.to_owned(), key), value)
}

/// Relies on `DashMap::contains_key`.
#[verifier::external_body]
fn dash_contains(m: &DashMap<(String, String), Value>, table: &str, key: &str) -> (r: bool)
    ensures
        r == dash_contents(*m).contains_key((table@, key@)),
{
    m.contains_key(&(table.to_owned(), key.to_owned()))
}

/// Relies on `DashMap::remove`: the key is gone, and the value it had is
/// returned.
#[verifier::external_body]
fn dash_remove(m: &mut DashMap<(String, String), Value>, table: &str, key: &str) -> (r: Option<Value>)
    ensures
        finds(dash_contents(*old(m)), table@, key@, r),
        dash_contents(*final(m)) == dash_contents(*old(m)).remove((table@, key@)),
{
    m.remove(&(table.to_owned(), key.to_owned())).map(|e| e.1)
}

/// Relies on `DashMap::iter`: every entry once, in an order that the map's
/// hasher decides.
#[verifier::external_body]
fn dash_entries(m: &DashMap<(String, String), Value>) -> (r: Vec<(String, String, Value)>)
    ensures
        forall|i: int|
            0 <= i < r@.len() ==> #[trigger] dash_contents(*m).contains_key((r@[i].0@, r@[i].1@))
                && dash_contents(*m)[(r@[i].0@, r@[i].1@)] == r@[i].2@,
        forall|t: Seq<char>, k: Seq<char>|
            #[trigger] dash_contents(*m).contains_key((t, k)) ==> exists|i: int|
                0 <= i < r@.len() && #[trigger] r@[i].0@ == t && r@[i].1@ == k,
        forall|i: int, j: int|
            0 <= i < j < r@.len() ==> (#[trigger] r@[i].0@, r@[i].1@) != (#[trigger] r@[j].0@,
            r@[j].1@),
{
    m.iter().map(|e| (e.key().0.clone(), e.key().1.clone(), e.value().clone())).collect()
}

/// The in-memory backend: one concurrent map from table and key to value.
/// A table exists as long as it holds a key; reads never create one.
pub struct MemTable {
    tables: DashMap<(String, String), Value>,
}

impl MemTable {
    /// An empty store.
    pub fn new() -> (r: Self)
        ensures
            r.contents() == Map::<(Seq<char>, Seq<char>), ValueModel>::empty(),
            r.infallible(),
    {
        MemTable { tables: dash_new() }
    }
}

impl Default for MemTable {
    fn default() -> (r: Self)
        ensures
            r.contents() == Map::<(Seq<char>, Seq<char>), ValueModel>::empty(),
            r.infallible(),
    {
        MemTable::new()
    }
}

impl Storage for MemTable {
    closed spec fn contents(&self) -> Contents {
        dash_contents(self.tables)
    }

    open spec fn infallible(&self) -> bool {
        true
    }

    fn get(&self, table: &str, key: &str) -> (r: Result<Option<Value>, KvError>)
        ensures
            r is Ok,
    {
        Ok(dash_get(&self.tables, table, key))
    }

    fn set(&mut self, table: &str, key: String, value: Value) -> (r: Result<Option<Value>, KvError>)
        ensures
            r is Ok,
    {
        Ok(dash_insert(&mut self.tables, table, key, value))
    }

    fn contains(&self, table: &str, key: &str) -> (r: Result<bool, KvError>)
        ensures
            r is Ok,
    {
        Ok(dash_contains(&self.tables, table, key))
    }

    fn del(&mut self, table: &str, key: &str) -> (r: Result<Option<Value>, KvError>)
        ensures
            r is Ok,
    {
        Ok(dash_remove(&mut self.tables, table, key))
    }

    fn get_all(&self, table: &str) -> (r: Result<Vec<Kvpair>, KvError>)
        ensures
            r is Ok,
    {
        Ok(self.pairs_of(table))
    }

    fn get_iter(&self, table: &str) -> (r: Result<StorageIter, KvError>)
        ensures
            r is Ok,
    {
        Ok(StorageIter::new(self.pairs_of(table)))
    }
}

impl MemTable {
    /// Every pair of `table`.
    fn pairs_of(&self, table: &str) -> (r: Vec<Kvpair>)
        ensures
            lists_table(self.contents(), table@, r@),
    {
        let entries = dash_entries(&self.tables);
        let wanted = table.to_owned();
        let ghost m = self.contents();
        let ghost mut src: Seq<int> = seq![];
        let mut out: Vec<Kvpair> = Vec::new();
        let mut i: usize = 0;
        while i < entries.len()
            invariant
                i <= entries@.len(),
                m == dash_contents(self.tables),
                wanted@ == table@,
                forall|a: int|
                    0 <= a < entries@.len() ==> #[trigger] m.contains_key(
                        (entries@[a].0@, entries@[a].1@),
                    ) && m[(entries@[a].0@, entries@[a].1@)] == entries@[a].2@,
                src.len() == out@.len(),
                forall|a: int|
                    #![trigger src[a]]
                    0 <= a < src.len() ==> 0 <= src[a] < i && entries@[src[a]].0@ == table@
                        && entries@[src[a]].1@ == out@[a]@.0 && entries@[src[a]].2@ == out@[a]@.1,
                forall|a: int, c: int| 0 <= a < c < src.len() ==> #[trigger] src[a] < #[trigger] src[c],
                forall|b: int|
                    #![trigger entries@[b]]
                    0 <= b < i && entries@[b].0@ == table@ ==> exists|a: int|
                        #![trigger out@[a]]
                        0 <= a < out@.len() && out@[a]@.0 == entries@[b].1@,
            decreases entries@.len() - i,
        {
            let t = &entries[i].0;
            let ghost before = out@;
            let ghost before_src = src;
            if *t == wanted {
                let k = &entries[i].1;
                let v = &entries[i].2;
                let p = Kvpair::from_parts(k.clone(), v.clone());
                out.push(p);
                proof {
                    src = src.push(i as int);
                    assert forall|a: int| 0 <= a < before.len() implies out@[a] == before[a] by {}
                    assert forall|b: int|
                        #![trigger entries@[b]]
                        0 <= b < i + 1 && entries@[b].0@ == table@ implies exists|a: int|
                        #![trigger out@[a]]
                        0 <= a < out@.len() && out@[a]@.0 == entries@[b].1@ by {
                        if b < i {
                            let a = choose|a: int|
                                #![trigger out@[a]]
                                0 <= a < before.len() && before[a]@.0 == entries@[b].1@;
                            assert(out@[a] == before[a]);
                        } else {
                            assert(out@[before.len() as int]@.0 == entries@[b].1@);
                        }
                    }
                }
            }
            i = i + 1;
        }
        proof {
            assert forall|a: int| 0 <= a < out@.len() implies #[trigger] m.contains_key(
                (table@, out@[a]@.0),
            ) && m[(table@, out@[a]@.0)] == out@[a]@.1 by {
                let b = src[a];
                assert(m.contains_key((entries@[b].0@, entries@[b].1@)));
            }
            assert forall|a: int, c: int|
                0 <= a < c < out@.len() implies #[trigger] out@[a]@.0 != #[trigger] out@[c]@.0 by {
                assert(src[a] < src[c]);
                assert((entries@[src[a]].0@, entries@[src[a]].1@) != (
                    entries@[src[c]].0@,
                    entries@[src[c]].1@,
                ));
            }
            assert forall|k: Seq<char>| #[trigger] m.contains_key((table@, k)) implies exists|
                a: int,
            | 0 <= a < out@.len() && #[trigger] out@[a]@.0 == k by {
                let b = choose|b: int|
                    0 <= b < entries@.len() && #[trigger] entries@[b].0@ == table@ && entries@[b].1@
                        == k;
                assert(entries@[b].0@ == table@);
                let a = choose|a: int|
                    #![trigger out@[a]]
                    0 <= a < out@.len() && out@[a]@.0 == entries@[b].1@;
            }
        }
        out
    }
}

} // verus!
