use vstd::prelude::*;

use crate::error::KvError;
use crate::pb::{Kvpair, Value, ValueModel};
use vstd::string::StringExecFns;

verus! {

/// What the store holds: the value of each key of each table, addressed by
/// `(table, key)`.
pub type Contents = Map<(Seq<char>, Seq<char>), ValueModel>;

/// `o` is what a read of `key` in `table` finds in `m`: nothing where the key
/// is absent, else its value.
pub open spec fn finds(m: Contents, table: Seq<char>, key: Seq<char>, o: Option<Value>) -> bool {
    match o {
        None => !m.contains_key((table, key)),
        Some(v) => m.contains_key((table, key)) && m[(table, key)] == v@,
    }
}

/// `pairs` lists every key of `table` in `m` once, each with its value, in
/// any order.
pub open spec fn lists_table(m: Contents, table: Seq<char>, pairs: Seq<Kvpair>) -> bool {
    &&& forall|i: int|
        0 <= i < pairs.len() ==> #[trigger] m.contains_key((table, pairs[i]@.0)) && m[(
        table,
        pairs[i]@.0,
    )] == pairs[i]@.1
    &&& forall|k: Seq<char>|
        #[trigger] m.contains_key((table, k)) ==> exists|i: int|
            0 <= i < pairs.len() && #[trigger] pairs[i]@.0 == k
    &&& forall|i: int, j: int|
        0 <= i < j < pairs.len() ==> #[trigger] pairs[i]@.0 != #[trigger] pairs[j]@.0
}

/// Storage contract, for every backend: after a set, a second set of the same
/// key returns the first value, and a read then finds the second.
pub proof fn lemma_set_twice(
    m: Contents,
    table: Seq<char>,
    key: Seq<char>,
    v1: ValueModel,
    v2: ValueModel,
    second: Option<Value>,
    read: Option<Value>,
)
    requires
        finds(m.insert((table, key), v1), table, key, second),
        finds(m.insert((table, key), v1).insert((table, key), v2), table, key, read),
    ensures
        second matches Some(v) && v@ == v1,
        read matches Some(v) && v@ == v2,
{
}

/// Storage contract, for every backend: a delete after a set returns the
/// stored value, and a read then finds nothing.
pub proof fn lemma_del_after_set(
    m: Contents,
    table: Seq<char>,
    key: Seq<char>,
    v: ValueModel,
    removed: Option<Value>,
    read: Option<Value>,
)
    requires
        finds(m.insert((table, key), v), table, key, removed),
        finds(m.insert((table, key), v).remove((table, key)), table, key, read),
    ensures
        removed matches Some(x) && x@ == v,
        read is None,
{
}

/// Storage contract, for every backend: a read or a delete of a key that was
/// never written finds nothing, and the delete leaves the store as it was.
pub proof fn lemma_untouched_key(m: Contents, table: Seq<char>, key: Seq<char>, found: Option<Value>)
    requires
        !m.contains_key((table, key)),
        finds(m, table, key, found),
    ensures
        found is None,
        m.remove((table, key)) == m,
{
    assert(m.remove((table, key)) =~= m);
}

/// Bulk scan: after three keys are set in a table that held none, a scan of
/// the table (eager, or through an iterator, whose contracts both speak of
/// `lists_table`) yields exactly those keys, each with its latest value.
pub proof fn lemma_scan_after_sets(
    m: Contents,
    table: Seq<char>,
    k1: Seq<char>,
    v1: ValueModel,
    k2: Seq<char>,
    v2: ValueModel,
    k3: Seq<char>,
    v3: ValueModel,
    pairs: Seq<Kvpair>,
)
    requires
        forall|k: Seq<char>| !m.contains_key((table, k)),
        lists_table(
            m.insert((table, k1), v1).insert((table, k2), v2).insert((table, k3), v3),
            table,
            pairs,
        ),
    ensures
        forall|i: int|
            0 <= i < pairs.len() ==> (#[trigger] pairs[i]@.0 == k1 || pairs[i]@.0 == k2
                || pairs[i]@.0 == k3),
        forall|i: int|
            0 <= i < pairs.len() ==> #[trigger] pairs[i]@.1 == (if pairs[i]@.0 == k3 {
                v3
            } else if pairs[i]@.0 == k2 {
                v2
            } else {
                v1
            }),
        exists|i: int| 0 <= i < pairs.len() && #[trigger] pairs[i]@.0 == k1,
        exists|i: int| 0 <= i < pairs.len() && #[trigger] pairs[i]@.0 == k2,
        exists|i: int| 0 <= i < pairs.len() && #[trigger] pairs[i]@.0 == k3,
{
    let m3 = m.insert((table, k1), v1).insert((table, k2), v2).insert((table, k3), v3);
    assert(m3.contains_key((table, k1)));
    assert(m3.contains_key((table, k2)));
    assert(m3.contains_key((table, k3)));
    assert forall|i: int| 0 <= i < pairs.len() implies (#[trigger] pairs[i]@.0 == k1 || pairs[i]@.0
        == k2 || pairs[i]@.0 == k3) by {
        assert(m3.contains_key((table, pairs[i]@.0)));
    }
}

/// Whether `s` holds a pair whose view is `p`.
pub open spec fn has_pair(s: Seq<Kvpair>, p: (Seq<char>, ValueModel)) -> bool {
    exists|j: int| 0 <= j < s.len() && #[trigger] s[j]@ == p
}

/// Two listings of one table hold the same pairs: as many, and each pair of
/// one is a pair of the other. A scan through `get_all` and one through
/// `get_iter` are both such listings, so they agree up to order.
pub proof fn lemma_listings_agree(m: Contents, table: Seq<char>, a: Seq<Kvpair>, b: Seq<Kvpair>)
    requires
        lists_table(m, table, a),
        lists_table(m, table, b),
    ensures
        a.len() == b.len(),
        forall|i: int| 0 <= i < a.len() ==> has_pair(b, #[trigger] a[i]@),
{
    let ka = a.map_values(|p: Kvpair| p@.0);
    let kb = b.map_values(|p: Kvpair| p@.0);
    assert(ka.no_duplicates()) by {
        assert forall|i: int, j: int| 0 <= i < ka.len() && 0 <= j < ka.len() && i != j implies ka[i]
            != ka[j] by {
            if i < j {
                assert(a[i]@.0 != a[j]@.0);
            } else {
                assert(a[j]@.0 != a[i]@.0);
            }
        }
    }
    assert(kb.no_duplicates()) by {
        assert forall|i: int, j: int| 0 <= i < kb.len() && 0 <= j < kb.len() && i != j implies kb[i]
            != kb[j] by {
            if i < j {
                assert(b[i]@.0 != b[j]@.0);
            } else {
                assert(b[j]@.0 != b[i]@.0);
            }
        }
    }
    assert forall|x: Seq<char>| ka.contains(x) implies kb.contains(x) by {
        let i = choose|i: int| 0 <= i < ka.len() && ka[i] == x;
        assert(m.contains_key((table, a[i]@.0)));
        let j = choose|j: int| 0 <= j < b.len() && #[trigger] b[j]@.0 == x;
        assert(kb[j] == x);
    }
    assert forall|x: Seq<char>| kb.contains(x) implies ka.contains(x) by {
        let j = choose|j: int| 0 <= j < kb.len() && kb[j] == x;
        assert(m.contains_key((table, b[j]@.0)));
        let i = choose|i: int| 0 <= i < a.len() && #[trigger] a[i]@.0 == x;
        assert(ka[i] == x);
    }
    assert(ka.to_set() =~= kb.to_set());
    ka.unique_seq_to_set();
    kb.unique_seq_to_set();
    assert forall|i: int| 0 <= i < a.len() implies has_pair(b, #[trigger] a[i]@) by {
        assert(m.contains_key((table, a[i]@.0)));
        let j = choose|j: int| 0 <= j < b.len() && #[trigger] b[j]@.0 == a[i]@.0;
        assert(m.contains_key((table, b[j]@.0)));
        assert(b[j]@ == a[i]@);
    }
}

/// The store after the sets `ops` of keys of `table`, applied first to last.
pub open spec fn after_sets(m: Contents, table: Seq<char>, ops: Seq<(Seq<char>, ValueModel)>) -> Contents
    decreases ops.len(),
{
    if ops.len() == 0 {
        m
    } else {
        after_sets(m, table, ops.drop_last()).insert((table, ops.last().0), ops.last().1)
    }
}

/// Sets of distinct keys in one table, applied one after another in any
/// order, lose no update: each key holds the value set for it, and the table
/// holds no key but those and the ones it had before.
pub proof fn lemma_distinct_sets_kept(m: Contents, table: Seq<char>, ops: Seq<(Seq<char>, ValueModel)>)
    requires
        forall|i: int, j: int| 0 <= i < j < ops.len() ==> #[trigger] ops[i].0 != #[trigger] ops[j].0,
    ensures
        forall|i: int|
            0 <= i < ops.len() ==> #[trigger] after_sets(m, table, ops).contains_key(
                (table, ops[i].0),
            ) && after_sets(m, table, ops)[(table, ops[i].0)] == ops[i].1,
        forall|k: Seq<char>|
            #[trigger] after_sets(m, table, ops).contains_key((table, k)) ==> m.contains_key(
                (table, k),
            ) || exists|i: int| 0 <= i < ops.len() && #[trigger] ops[i].0 == k,
    decreases ops.len(),
{
    if ops.len() > 0 {
        let prev = ops.drop_last();
        lemma_distinct_sets_kept(m, table, prev);
        let a = after_sets(m, table, ops);
        let b = after_sets(m, table, prev);
        assert(a == b.insert((table, ops.last().0), ops.last().1));
        assert forall|i: int| 0 <= i < ops.len() implies #[trigger] a.contains_key((table, ops[i].0))
            && a[(table, ops[i].0)] == ops[i].1 by {
            if i < ops.len() - 1 {
                assert(prev[i] == ops[i]);
                assert(b.contains_key((table, prev[i].0)));
                assert(ops[i].0 != ops[ops.len() - 1].0);
            }
        }
        assert forall|k: Seq<char>| #[trigger] a.contains_key((table, k)) implies m.contains_key(
            (table, k),
        ) || exists|i: int| 0 <= i < ops.len() && #[trigger] ops[i].0 == k by {
            if k != ops.last().0 {
                assert(b.contains_key((table, k)));
                if !m.contains_key((table, k)) {
                    let i = choose|i: int| 0 <= i < prev.len() && #[trigger] prev[i].0 == k;
                    assert(ops[i] == prev[i]);
                }
            } else {
                assert(ops[ops.len() - 1].0 == k);
            }
        }
    }
}

/// The capability that every storage backend offers: tables of keys and
/// values, created on first write. A backend fails only on a fault of its
/// own engine; an absent table or key is an ordinary result.
pub trait Storage {
    /// What the backend holds.
    spec fn contents(&self) -> Contents;

    /// Whether the backend never faults: then every operation returns `Ok`.
    spec fn infallible(&self) -> bool;

    /// The value of `key` in `table`, if there is one.
    fn get(&self, table: &str, key: &str) -> (r: Result<Option<Value>, KvError>)
        ensures
            self.infallible() ==> r is Ok,
            r matches Ok(o) ==> finds(self.contents(), table@, key@, o),
    ;

    /// Sets `key` of `table` to `value` and returns the value it had before.
    fn set(&mut self, table: &str, key: String, value: Value) -> (r: Result<
        Option<Value>,
        KvError,
    >)
        ensures
            old(self).infallible() ==> r is Ok,
            final(self).infallible() == old(self).infallible(),
            r matches Ok(o) ==> finds(old(self).contents(), table@, key@, o) && final(self).contents() == old(self).contents().insert((table@, key@), value@),
    ;

    /// Whether `table` holds `key`.
    fn contains(&self, table: &str, key: &str) -> (r: Result<bool, KvError>)
        ensures
            self.infallible() ==> r is Ok,
            r matches Ok(b) ==> b == self.contents().contains_key((table@, key@)),
    ;

    /// Removes `key` from `table` and returns the value it had.
    fn del(&mut self, table: &str, key: &str) -> (r: Result<Option<Value>, KvError>)
        ensures
            old(self).infallible() ==> r is Ok,
            final(self).infallible() == old(self).infallible(),
            r matches Ok(o) ==> finds(old(self).contents(), table@, key@, o) && final(self).contents() == old(self).contents().remove((table@, key@)),
    ;

    /// Every pair of `table`, in no particular order.
    fn get_all(&self, table: &str) -> (r: Result<Vec<Kvpair>, KvError>)
        ensures
            self.infallible() ==> r is Ok,
            r matches Ok(v) ==> lists_table(self.contents(), table@, v@),
    ;

    /// The pairs of `table`, handed out one at a time.
    fn get_iter(&self, table: &str) -> (r: Result<StorageIter, KvError>)
        ensures
            self.infallible() ==> r is Ok,
            r matches Ok(it) ==> lists_table(self.contents(), table@, it@),
    ;
}

/// The pairs of a table scan, handed out one at a time by `next`.
pub struct StorageIter {
    data: Vec<Kvpair>,
}

impl View for StorageIter {
    type V = Seq<Kvpair>;

    /// The pairs not yet handed out, in the order they come.
    closed spec fn view(&self) -> Seq<Kvpair> {
        self.data@
    }
}

impl StorageIter {
    /// An iterator over `data`, first to last.
    pub fn new(data: Vec<Kvpair>) -> (r: Self)
        ensures
            r@ == data@,
    {
        StorageIter { data }
    }

    /// The next pair, if any is left.
    pub fn next(&mut self) -> (r: Option<Kvpair>)
        ensures
            old(self)@.len() == 0 ==> r is None && final(self)@ == old(self)@,
            old(self)@.len() > 0 ==> r == Some(old(self)@[0]) && final(self)@ == old(self)@.drop_first(),
    {
        if self.data.len() == 0 {
            None
        } else {
            let p = self.data.remove(0);
            assert(self.data@ =~= old(self)@.drop_first());
            Some(p)
        }
    }
}

/// Turns an optional result into a result of an option.
pub fn flip<T, E>(x: Option<Result<T, E>>) -> (r: Result<Option<T>, E>)
    ensures
        r == match x {
            None => Ok(None),
            Some(Ok(v)) => Ok(Some(v)),
            Some(Err(e)) => Err(e),
        },
{
    match x {
        None => Ok(None),
        Some(Ok(v)) => Ok(Some(v)),
        Some(Err(e)) => Err(e),
    }
}

/// The flat key under which a disk engine stores `key` of `table`.
pub open spec fn full_key_of(table: Seq<char>, key: Seq<char>) -> Seq<char> {
    table + seq![':'] + key
}

/// The prefix that every flat key of `table` starts with.
pub open spec fn table_prefix_of(table: Seq<char>) -> Seq<char> {
    table + seq![':']
}

/// Flattens a table and a key into one key: `table:key`.
pub fn get_full_key(table: &str, key: &str) -> (r: String)
    ensures
        r@ == full_key_of(table@, key@),
{
    let mut s = table.to_owned();
    s.append(":");
    s.append(key);
    proof {
        reveal_strlit(":");
    }
    assert(s@ =~= full_key_of(table@, key@));
    s
}

/// The prefix of the flat keys of `table`: `table:`.
pub fn get_table_prefix(table: &str) -> (r: String)
    ensures
        r@ == table_prefix_of(table@),
{
    let mut s = table.to_owned();
    s.append(":");
    proof {
        reveal_strlit(":");
    }
    assert(s@ =~= table_prefix_of(table@));
    s
}

/// Whether `s` starts with `prefix`.
pub fn has_prefix(s: &str, prefix: &str) -> (r: bool)
    ensures
        r == (prefix@.len() <= s@.len() && s@.subrange(0, prefix@.len() as int) == prefix@),
{
    let n = prefix.unicode_len();
    let m = s.unicode_len();
    if n > m {
        return false;
    }
    let mut i: usize = 0;
    while i < n
        invariant
            n == prefix@.len(),
            m == s@.len(),
            n <= m,
            i <= n,
            forall|j: int| 0 <= j < i ==> s@[j] == prefix@[j],
        decreases n - i,
    {
        if s.get_char(i) != prefix.get_char(i) {
            assert(s@.subrange(0, n as int)[i as int] != prefix@[i as int]);
            return false;
        }
        i = i + 1;
    }
    assert(s@.subrange(0, n as int) =~= prefix@);
    true
}

/// The key part of a flat key: what follows the table prefix.
pub fn get_key_only(full_key: &str, prefix: &str) -> (r: String)
    requires
        prefix@.len() <= full_key@.len(),
        full_key@.subrange(0, prefix@.len() as int) == prefix@,
    ensures
        prefix@ + r@ == full_key@,
{
    let n = prefix.unicode_len();
    let m = full_key.unicode_len();
    let rest = full_key.substring_char(n, m);
    let r = rest.to_owned();
    assert(prefix@ + r@ =~= full_key@);
    r
}

/// Whether `s` starts with `prefix`.
pub open spec fn starts_with(s: Seq<char>, prefix: Seq<char>) -> bool {
    prefix.len() <= s.len() && s.subrange(0, prefix.len() as int) == prefix
}

/// The pairs of `table` that a scan over flat keys yields: each entry whose
/// key starts with the table prefix, with that prefix taken off, in scan
/// order.
pub open spec fn scan_pairs(table: Seq<char>, entries: Seq<(Seq<char>, ValueModel)>) -> Seq<
    (Seq<char>, ValueModel),
>
    decreases entries.len(),
{
    if entries.len() == 0 {
        seq![]
    } else {
        let before = scan_pairs(table, entries.drop_last());
        let (k, v) = entries.last();
        let p = table_prefix_of(table);
        if starts_with(k, p) {
            before.push((k.subrange(p.len() as int, k.len() as int), v))
        } else {
            before
        }
    }
}

/// The view of a scanned entry.
pub open spec fn entry_view(e: (String, Value)) -> (Seq<char>, ValueModel) {
    (e.0@, e.1@)
}

/// The view of a pair.
pub open spec fn pair_view(p: Kvpair) -> (Seq<char>, ValueModel) {
    p@
}

/// The pairs of `table` among the entries of a prefix scan over flat keys.
pub fn table_pairs_from_scan(table: &str, entries: &Vec<(String, Value)>) -> (r: Vec<Kvpair>)
    ensures
        r@.map_values(|p: Kvpair| pair_view(p)) == scan_pairs(
            table@,
            entries@.map_values(|e: (String, Value)| entry_view(e)),
        ),
{
    let prefix = get_table_prefix(table);
    let ghost ev = entries@.map_values(|e: (String, Value)| entry_view(e));
    let mut out: Vec<Kvpair> = Vec::new();
    let mut i: usize = 0;
    while i < entries.len()
        invariant
            i <= entries@.len(),
            ev == entries@.map_values(|e: (String, Value)| entry_view(e)),
            prefix@ == table_prefix_of(table@),
            out@.map_values(|p: Kvpair| pair_view(p)) == scan_pairs(table@, ev.subrange(0, i as int)),
        decreases entries@.len() - i,
    {
        let key = &entries[i].0;
        let value = &entries[i].1;
        let ghost before = out@;
        assert(ev.subrange(0, i + 1).drop_last() =~= ev.subrange(0, i as int));
        assert(ev.subrange(0, i + 1).last() == (key@, value@));
        if has_prefix(key.as_str(), prefix.as_str()) {
            let k = get_key_only(key.as_str(), prefix.as_str());
            proof {
                assert(k@ =~= key@.subrange(prefix@.len() as int, key@.len() as int));
            }
            out.push(Kvpair::from_parts(k, value.clone()));
            assert(out@.map_values(|p: Kvpair| pair_view(p)) =~= before.map_values(
                |p: Kvpair| pair_view(p),
            ).push(out@.last()@));
        }
        i = i + 1;
    }
    assert(ev.subrange(0, i as int) =~= ev);
    out
}

} // verus!
