use vstd::prelude::*;
use vstd::string::StringExecFns;

use crate::error::{internal_message, invalid_command_message, not_found_message, KvError};
use crate::pb::{
    pair_value, CommandRequest, CommandResponse, Hdel, Hget, Hgetall, Hset, Kvpair, RequestData,
    Value, ValueData, ValueModel, STATUS_BAD_REQUEST, STATUS_INTERNAL, STATUS_NOT_FOUND, STATUS_OK,
};
use crate::storage::{lists_table, Contents, Storage};

verus! {

/// The value of `key` in `table`, or the empty value where there is none.
pub open spec fn value_or_empty(m: Contents, table: Seq<char>, key: Seq<char>) -> ValueModel {
    if m.contains_key((table, key)) {
        m[(table, key)]
    } else {
        ValueModel::Empty
    }
}

/// `r` succeeds with the single value `v`.
pub open spec fn replies_value(r: CommandResponse, v: ValueModel) -> bool {
    &&& r.status == STATUS_OK
    &&& r.message@.len() == 0
    &&& r.values@.len() == 1
    &&& r.values@[0]@ == v
    &&& r.pairs@.len() == 0
}

/// `r` fails with `status` and `message`, and carries no data.
pub open spec fn replies_error(r: CommandResponse, status: u32, message: Seq<char>) -> bool {
    &&& r.status == status
    &&& r.message@ == message
    &&& r.values@.len() == 0
    &&& r.pairs@.len() == 0
}

/// `r` reports an error that the backend returned: that error's status and
/// message, and no data.
pub open spec fn replies_fault(r: CommandResponse) -> bool {
    exists|e: KvError| #[trigger] replies_error(r, e.status(), e.message())
}

/// The reply to a read of `key` in `table`: its value, or 404 where it is
/// absent.
pub open spec fn hget_reply(m: Contents, table: Seq<char>, key: Seq<char>, r: CommandResponse) -> bool {
    if m.contains_key((table, key)) {
        replies_value(r, m[(table, key)])
    } else {
        replies_error(r, STATUS_NOT_FOUND, not_found_message(table, key))
    }
}

/// The reply to a scan of `table`: every pair of it.
pub open spec fn hgetall_reply(m: Contents, table: Seq<char>, r: CommandResponse) -> bool {
    &&& r.status == STATUS_OK
    &&& r.message@.len() == 0
    &&& r.values@.len() == 0
    &&& lists_table(m, table, r.pairs@)
}

/// What a set does: without a pair nothing changes and the reply is the
/// empty value; with one, the key takes the pair's value and the reply is
/// the value it had before, or the empty value.
pub open spec fn hset_effect(m0: Contents, m1: Contents, h: Hset, r: CommandResponse) -> bool {
    match h.pair {
        None => m1 == m0 && replies_value(r, ValueModel::Empty),
        Some(p) => m1 == m0.insert((h.table@, p.key@), pair_value(p.value)) && replies_value(
            r,
            value_or_empty(m0, h.table@, p.key@),
        ),
    }
}

/// What a delete does: the key is gone, and the reply is the value it had,
/// or the empty value.
pub open spec fn hdel_effect(m0: Contents, m1: Contents, h: Hdel, r: CommandResponse) -> bool {
    m1 == m0.remove((h.table@, h.key@)) && replies_value(r, value_or_empty(m0, h.table@, h.key@))
}

/// The response to an error that the backend returned.
fn fault_reply(e: KvError) -> (r: CommandResponse)
    ensures
        replies_error(r, e.status(), e.message()),
        replies_fault(r),
{
    let ghost err = e;
    let r = CommandResponse::from_error(e);
    assert(replies_error(r, err.status(), err.message()));
    r
}

/// A command that runs against a store and yields a response.
pub trait CommandService {
    fn execute<S: Storage>(self, store: &mut S) -> CommandResponse;
}

impl CommandService for Hget {
    fn execute<S: Storage>(self, store: &mut S) -> (r: CommandResponse)
        ensures
            *final(store) == *old(store),
            old(store).infallible() ==> hget_reply(old(store).contents(), self.table@, self.key@, r),
            hget_reply(old(store).contents(), self.table@, self.key@, r) || replies_fault(r),
    {
        match store.get(self.table.as_str(), self.key.as_str()) {
            Ok(Some(v)) => CommandResponse::from_value(v),
            Ok(None) => CommandResponse::from_error(KvError::NotFound(self.table, self.key)),
            Err(e) => fault_reply(e),
        }
    }
}

impl CommandService for Hgetall {
    fn execute<S: Storage>(self, store: &mut S) -> (r: CommandResponse)
        ensures
            *final(store) == *old(store),
            old(store).infallible() ==> hgetall_reply(old(store).contents(), self.table@, r),
            hgetall_reply(old(store).contents(), self.table@, r) || replies_fault(r),
    {
        match store.get_all(self.table.as_str()) {
            Ok(v) => CommandResponse::from_pairs(v),
            Err(e) => fault_reply(e),
        }
    }
}

impl CommandService for Hset {
    fn execute<S: Storage>(self, store: &mut S) -> (r: CommandResponse)
        ensures
            final(store).infallible() == old(store).infallible(),
            old(store).infallible() ==> hset_effect(
                old(store).contents(),
                final(store).contents(),
                self,
                r,
            ),
            self.pair is None ==> hset_effect(old(store).contents(), final(store).contents(), self, r),
            hset_effect(old(store).contents(), final(store).contents(), self, r) || replies_fault(
                r,
            ),
    {
        match self.pair {
            Some(p) => {
                let value = match p.value {
                    Some(v) => v,
                    None => Value::default(),
                };
                match store.set(self.table.as_str(), p.key, value) {
                    Ok(Some(v)) => CommandResponse::from_value(v),
                    Ok(None) => CommandResponse::from_value(Value::default()),
                    Err(e) => fault_reply(e),
                }
            },
            None => CommandResponse::from_value(Value::default()),
        }
    }
}

impl CommandService for Hdel {
    fn execute<S: Storage>(self, store: &mut S) -> (r: CommandResponse)
        ensures
            final(store).infallible() == old(store).infallible(),
            old(store).infallible() ==> hdel_effect(
                old(store).contents(),
                final(store).contents(),
                self,
                r,
            ),
            hdel_effect(old(store).contents(), final(store).contents(), self, r) || replies_fault(r),
    {
        match store.del(self.table.as_str(), self.key.as_str()) {
            Ok(Some(v)) => CommandResponse::from_value(v),
            Ok(None) => CommandResponse::from_value(Value::default()),
            Err(e) => fault_reply(e),
        }
    }
}

/// Whether dispatching `cmd` calls the store: a read, a scan, a set with a
/// pair, or a delete.
pub open spec fn touches_store(cmd: CommandRequest) -> bool {
    match cmd.request_data {
        Some(RequestData::Hget(_)) => true,
        Some(RequestData::Hgetall(_)) => true,
        Some(RequestData::Hset(h)) => h.pair is Some,
        Some(RequestData::Hdel(_)) => true,
        _ => false,
    }
}

/// What dispatching `cmd` does where the backend does not fault: a request
/// without data is refused with 400, a read, a scan, a set or a delete runs
/// against the store, and every other command is refused with 500 as not
/// implemented.
pub open spec fn dispatch_effect(
    m0: Contents,
    m1: Contents,
    cmd: CommandRequest,
    r: CommandResponse,
) -> bool {
    match cmd.request_data {
        None => m1 == m0 && replies_error(
            r,
            STATUS_BAD_REQUEST,
            invalid_command_message("Request has no data"@),
        ),
        Some(RequestData::Hget(h)) => m1 == m0 && hget_reply(m0, h.table@, h.key@, r),
        Some(RequestData::Hgetall(h)) => m1 == m0 && hgetall_reply(m0, h.table@, r),
        Some(RequestData::Hset(h)) => hset_effect(m0, m1, h, r),
        Some(RequestData::Hdel(h)) => hdel_effect(m0, m1, h, r),
        Some(_) => m1 == m0 && replies_error(r, STATUS_INTERNAL, internal_message("Not implemented"@)),
    }
}

/// Runs a command against the store and turns the outcome into a response.
/// An error of the backend yields that error's response instead; commands
/// that do not call the store behave the same on every backend.
pub fn dispatch<S: Storage>(cmd: CommandRequest, store: &mut S) -> (r: CommandResponse)
    ensures
        final(store).infallible() == old(store).infallible(),
        !touches_store(cmd) ==> dispatch_effect(old(store).contents(), final(store).contents(), cmd, r),
        old(store).infallible() ==> dispatch_effect(
            old(store).contents(),
            final(store).contents(),
            cmd,
            r,
        ),
        dispatch_effect(old(store).contents(), final(store).contents(), cmd, r) || (touches_store(cmd)
            && replies_fault(r)),
{
    match cmd.request_data {
        Some(RequestData::Hget(h)) => h.execute(store),
        Some(RequestData::Hgetall(h)) => h.execute(store),
        Some(RequestData::Hset(h)) => h.execute(store),
        Some(RequestData::Hdel(h)) => h.execute(store),
        None => {
            let mut c = String::new();
            c.append("Request has no data");
            CommandResponse::from_error(KvError::InvalidCommand(c))
        },
        _ => {
            let mut m = String::new();
            m.append("Not implemented");
            CommandResponse::from_error(KvError::Internal(m))
        },
    }
}

/// Whether `msg` occurs somewhere in `s`.
pub open spec fn contains_text(s: Seq<char>, msg: Seq<char>) -> bool {
    exists|i: int| 0 <= i && i + msg.len() <= s.len() && #[trigger] s.subrange(i, i + msg.len()) == msg
}

/// The views of a sequence of values.
pub open spec fn value_views(s: Seq<Value>) -> Seq<ValueModel> {
    s.map_values(|v: Value| v@)
}

/// A pair as it is, telling a missing value from an empty one.
pub open spec fn pair_exact(p: Kvpair) -> (Seq<char>, Option<ValueModel>) {
    (
        p.key@,
        match p.value {
            None => None,
            Some(v) => Some(v@),
        },
    )
}

/// The exact views of a sequence of pairs.
pub open spec fn pair_views(s: Seq<Kvpair>) -> Seq<(Seq<char>, Option<ValueModel>)> {
    s.map_values(|p: Kvpair| pair_exact(p))
}

/// Whether `msg` occurs in `s` at character `i`.
fn occurs_at(s: &str, msg: &str, i: usize) -> (r: bool)
    requires
        i + msg@.len() <= s@.len(),
    ensures
        r == (s@.subrange(i as int, i + msg@.len()) == msg@),
{
    let m = msg.unicode_len();
    let n = s.unicode_len();
    let mut j: usize = 0;
    while j < m
        invariant
            m == msg@.len(),
            n == s@.len(),
            i + m <= n,
            j <= m,
            forall|k: int| 0 <= k < j ==> s@[i + k] == msg@[k],
        decreases m - j,
    {
        if s.get_char(i + j) != msg.get_char(j) {
            assert(s@.subrange(i as int, i + m)[j as int] != msg@[j as int]);
            return false;
        }
        j = j + 1;
    }
    assert(s@.subrange(i as int, i + m) =~= msg@);
    true
}

/// Whether `msg` occurs somewhere in `s`.
fn contains_str(s: &str, msg: &str) -> (r: bool)
    ensures
        r == contains_text(s@, msg@),
{
    let n = s.unicode_len();
    let m = msg.unicode_len();
    if m > n {
        return false;
    }
    let last = n - m;
    let mut i: usize = 0;
    while i < last
        invariant
            n == s@.len(),
            m == msg@.len(),
            last == n - m,
            i <= last,
            forall|k: int| 0 <= k < i ==> #[trigger] s@.subrange(k, k + m) != msg@,
        decreases last - i,
    {
        if occurs_at(s, msg, i) {
            return true;
        }
        i = i + 1;
    }
    let r = occurs_at(s, msg, last);
    proof {
        if !r {
            assert forall|k: int| 0 <= k && k + m <= n implies #[trigger] s@.subrange(k, k + m)
                != msg@ by {
                if k < last {
                } else {
                    assert(k == last);
                }
            }
        }
    }
    r
}

/// Whether two byte strings are equal.
fn same_bytes(a: &Vec<u8>, b: &Vec<u8>) -> (r: bool)
    ensures
        r == (a@ == b@),
{
    if a.len() != b.len() {
        return false;
    }
    let mut i: usize = 0;
    while i < a.len()
        invariant
            a@.len() == b@.len(),
            i <= a@.len(),
            forall|k: int| 0 <= k < i ==> a@[k] == b@[k],
        decreases a@.len() - i,
    {
        if a[i] != b[i] {
            return false;
        }
        i = i + 1;
    }
    assert(a@ =~= b@);
    true
}

/// Whether two values hold the same thing.
fn same_value(a: &Value, b: &Value) -> (r: bool)
    ensures
        r == (a@ == b@),
{
    match (&a.value, &b.value) {
        (None, None) => true,
        (Some(ValueData::String(x)), Some(ValueData::String(y))) => *x == *y,
        (Some(ValueData::Binary(x)), Some(ValueData::Binary(y))) => same_bytes(x, y),
        (Some(ValueData::Integer(x)), Some(ValueData::Integer(y))) => *x == *y,
        _ => false,
    }
}

/// Whether two pairs hold the same key and value.
fn same_pair(a: &Kvpair, b: &Kvpair) -> (r: bool)
    ensures
        r == (pair_exact(*a) == pair_exact(*b)),
{
    if a.key != b.key {
        return false;
    }
    match (&a.value, &b.value) {
        (Some(x), Some(y)) => same_value(x, y),
        (None, None) => true,
        _ => false,
    }
}

/// How many pairs of `s` equal `x`.
fn count_pair(s: &[Kvpair], x: &Kvpair) -> (n: usize)
    ensures
        n == pair_views(s@).to_multiset().count(pair_exact(*x)),
{
    broadcast use vstd::seq_lib::group_to_multiset_ensures;
    broadcast use vstd::multiset::group_multiset_axioms;

    let mut n: usize = 0;
    let mut i: usize = 0;
    while i < s.len()
        invariant
            i <= s@.len(),
            n <= i,
            n == pair_views(s@.subrange(0, i as int)).to_multiset().count(pair_exact(*x)),
        decreases s@.len() - i,
    {
        assert(pair_views(s@.subrange(0, i + 1)) =~= pair_views(s@.subrange(0, i as int)).push(
            pair_exact(s@[i as int]),
        ));
        proof {
            vstd::seq_lib::to_multiset_build(pair_views(s@.subrange(0, i as int)), pair_exact(s@[i as int]));
        }
        if same_pair(&s[i], x) {
            n = n + 1;
        }
        i = i + 1;
    }
    assert(s@.subrange(0, i as int) =~= s@);
    n
}

/// Whether every pair of `a` occurs as often in `a` as in `b`.
fn counts_agree(a: &[Kvpair], b: &[Kvpair]) -> (r: bool)
    ensures
        r == forall|i: int|
            0 <= i < a@.len() ==> pair_views(a@).to_multiset().count(#[trigger] pair_exact(a@[i]))
                == pair_views(b@).to_multiset().count(pair_exact(a@[i])),
{
    let mut i: usize = 0;
    while i < a.len()
        invariant
            i <= a@.len(),
            forall|k: int|
                0 <= k < i ==> pair_views(a@).to_multiset().count(#[trigger] pair_exact(a@[k])) == pair_views(
                    b@,
                ).to_multiset().count(pair_exact(a@[k])),
        decreases a@.len() - i,
    {
        if count_pair(a, &a[i]) != count_pair(b, &a[i]) {
            return false;
        }
        i = i + 1;
    }
    true
}

/// Whether two sequences of pairs hold the same pairs, each as often, in
/// any order.
fn same_pairs_any_order(a: &[Kvpair], b: &[Kvpair]) -> (r: bool)
    ensures
        r == (pair_views(a@).to_multiset() == pair_views(b@).to_multiset()),
{
    broadcast use vstd::seq_lib::group_to_multiset_ensures;

    let ab = counts_agree(a, b);
    let ba = counts_agree(b, a);
    let ghost ma = pair_views(a@).to_multiset();
    let ghost mb = pair_views(b@).to_multiset();
    proof {
        if ab && ba {
            assert forall|x: (Seq<char>, Option<ValueModel>)| ma.count(x) == mb.count(x) by {
                if pair_views(a@).contains(x) {
                    let i = choose|i: int| 0 <= i < pair_views(a@).len() && pair_views(a@)[i] == x;
                    assert(pair_exact(a@[i]) == x);
                } else if pair_views(b@).contains(x) {
                    let j = choose|j: int| 0 <= j < pair_views(b@).len() && pair_views(b@)[j] == x;
                    assert(pair_exact(b@[j]) == x);
                }
            }
            assert(ma =~= mb);
        }
        if ma == mb {
            assert(ab);
            assert(ba);
        }
    }
    ab && ba
}

/// Codes compared from position `i` on: at the first difference the smaller
/// element wins, and a proper prefix is smaller.
pub open spec fn code_lt_from(a: Seq<u32>, b: Seq<u32>, i: int) -> bool
    decreases a.len() - i,
{
    if i < 0 || i >= a.len() {
        0 <= i < b.len()
    } else if i >= b.len() {
        false
    } else if a[i] != b[i] {
        a[i] < b[i]
    } else {
        code_lt_from(a, b, i + 1)
    }
}

/// The lexicographic order on codes.
pub open spec fn code_lt(a: Seq<u32>, b: Seq<u32>) -> bool {
    code_lt_from(a, b, 0)
}

/// The code of a string: its characters as numbers.
pub open spec fn char_code(s: Seq<char>) -> Seq<u32> {
    s.map_values(|c: char| c as u32)
}

/// The code of an optional value: a tag for its kind (missing, empty,
/// string, bytes, integer), then its contents in their own order.
pub open spec fn value_code(v: Option<ValueModel>) -> Seq<u32> {
    match v {
        None => seq![0u32],
        Some(ValueModel::Empty) => seq![1u32],
        Some(ValueModel::Str(s)) => seq![2u32] + char_code(s),
        Some(ValueModel::Bytes(b)) => seq![3u32] + b.map_values(|x: u8| x as u32),
        Some(ValueModel::Int(i)) => seq![
            4u32,
            ((i + 0x8000_0000_0000_0000int) / 0x1_0000_0000int) as u32,
            ((i + 0x8000_0000_0000_0000int) % 0x1_0000_0000int) as u32,
        ],
    }
}

/// The order in which pairs are sorted: by key, then by value.
pub open spec fn pair_lt(a: (Seq<char>, Option<ValueModel>), b: (Seq<char>, Option<ValueModel>)) -> bool {
    code_lt(char_code(a.0), char_code(b.0)) || (a.0 == b.0 && code_lt(value_code(a.1), value_code(b.1)))
}

/// Whether pairs stand in sorted order.
pub open spec fn pairs_sorted(s: Seq<(Seq<char>, Option<ValueModel>)>) -> bool {
    forall|i: int| 0 <= i < s.len() - 1 ==> !pair_lt(#[trigger] s[i + 1], s[i])
}

/// Whether `a` comes before `b` in the lexicographic order on codes.
fn codes_lt(a: &Vec<u32>, b: &Vec<u32>) -> (r: bool)
    ensures
        r == code_lt(a@, b@),
{
    let mut i: usize = 0;
    while i < a.len() && i < b.len()
        invariant
            i <= a@.len(),
            i <= b@.len(),
            code_lt(a@, b@) == code_lt_from(a@, b@, i as int),
        decreases a@.len() - i,
    {
        if a[i] != b[i] {
            return a[i] < b[i];
        }
        i = i + 1;
    }
    i < b.len()
}

/// The code of a string.
fn chars_code(s: &str) -> (r: Vec<u32>)
    ensures
        r@ == char_code(s@),
{
    let n = s.unicode_len();
    let mut out: Vec<u32> = Vec::new();
    let mut i: usize = 0;
    while i < n
        invariant
            n == s@.len(),
            i <= n,
            out@ == char_code(s@.subrange(0, i as int)),
        decreases n - i,
    {
        out.push(s.get_char(i) as u32);
        i = i + 1;
        assert(out@ =~= char_code(s@.subrange(0, i as int)));
    }
    assert(s@.subrange(0, n as int) =~= s@);
    out
}

/// The code of an optional value.
fn value_code_of(v: &Option<Value>) -> (r: Vec<u32>)
    ensures
        r@ == value_code(
            match *v {
                None => None,
                Some(x) => Some(x@),
            },
        ),
{
    let mut out: Vec<u32> = Vec::new();
    match v {
        None => {
            out.push(0u32);
            assert(out@ =~= seq![0u32]);
        },
        Some(x) => match &x.value {
            None => {
                out.push(1u32);
                assert(out@ =~= seq![1u32]);
            },
            Some(ValueData::String(s)) => {
                out.push(2u32);
                let c = chars_code(s.as_str());
                let mut i: usize = 0;
                while i < c.len()
                    invariant
                        i <= c@.len(),
                        out@ == seq![2u32] + c@.subrange(0, i as int),
                    decreases c@.len() - i,
                {
                    out.push(c[i]);
                    i = i + 1;
                    assert(out@ =~= seq![2u32] + c@.subrange(0, i as int));
                }
                assert(c@.subrange(0, i as int) =~= c@);
            },
            Some(ValueData::Binary(b)) => {
                out.push(3u32);
                let mut i: usize = 0;
                while i < b.len()
                    invariant
                        i <= b@.len(),
                        out@ == seq![3u32] + b@.subrange(0, i as int).map_values(|x: u8| x as u32),
                    decreases b@.len() - i,
                {
                    out.push(b[i] as u32);
                    i = i + 1;
                    assert(out@ =~= seq![3u32] + b@.subrange(0, i as int).map_values(
                        |x: u8| x as u32,
                    ));
                }
                assert(b@.subrange(0, i as int) =~= b@);
            },
            Some(ValueData::Integer(n)) => {
                let n = *n;
                let u: u64 = if n >= 0 {
                    (n as u64) + 0x8000_0000_0000_0000u64
                } else {
                    ((n + 1) + i64::MAX) as u64
                };
                assert(u == n + 0x8000_0000_0000_0000int);
                out.push(4u32);
                out.push((u / 0x1_0000_0000u64) as u32);
                out.push((u % 0x1_0000_0000u64) as u32);
                assert(out@ =~= value_code(Some(x@)));
            },
        },
    }
    out
}

/// Whether pair `a` comes before pair `b`.
fn pair_before(a: &Kvpair, b: &Kvpair) -> (r: bool)
    ensures
        r == pair_lt(pair_exact(*a), pair_exact(*b)),
{
    let ka = chars_code(a.key.as_str());
    let kb = chars_code(b.key.as_str());
    if codes_lt(&ka, &kb) {
        return true;
    }
    if a.key != b.key {
        return false;
    }
    let va = value_code_of(&a.value);
    let vb = value_code_of(&b.value);
    codes_lt(&va, &vb)
}

/// Whether `s` stands in sorted order.
fn sorted(s: &[Kvpair]) -> (r: bool)
    ensures
        r == pairs_sorted(pair_views(s@)),
{
    let mut i: usize = 1;
    while i < s.len()
        invariant
            1 <= i,
            forall|k: int| 0 <= k < i - 1 && k < s@.len() - 1 ==> !pair_lt(
                #[trigger] pair_views(s@)[k + 1],
                pair_views(s@)[k],
            ),
        decreases s@.len() - i,
    {
        if pair_before(&s[i], &s[i - 1]) {
            assert(pair_views(s@)[(i - 1) + 1] == pair_exact(s@[i as int]));
            return false;
        }
        i = i + 1;
    }
    true
}

/// Whether `res` is a success that carries exactly `values`, in order, and
/// whose pairs, once sorted, are exactly `pairs`: `pairs` stands in sorted
/// order and holds the same pairs as `res`, each as often.
pub fn assert_res_ok(res: CommandResponse, values: &[Value], pairs: &[Kvpair]) -> (r: bool)
    ensures
        r == (res.status == STATUS_OK && res.message@.len() == 0 && value_views(res.values@)
            == value_views(values@) && pairs_sorted(pair_views(pairs@)) && pair_views(
            res.pairs@,
        ).to_multiset() == pair_views(pairs@).to_multiset()),
{
    if res.status != STATUS_OK || res.message.as_str().unicode_len() != 0 {
        return false;
    }
    if res.values.len() != values.len() {
        assert(value_views(res.values@).len() != value_views(values@).len());
        return false;
    }
    let mut i: usize = 0;
    while i < values.len()
        invariant
            res.values@.len() == values@.len(),
            i <= values@.len(),
            forall|k: int| 0 <= k < i ==> res.values@[k]@ == values@[k]@,
        decreases values@.len() - i,
    {
        if !same_value(&res.values[i], &values[i]) {
            assert(value_views(res.values@)[i as int] != value_views(values@)[i as int]);
            return false;
        }
        i = i + 1;
    }
    assert(value_views(res.values@) =~= value_views(values@));
    sorted(pairs) && same_pairs_any_order(res.pairs.as_slice(), pairs)
}

/// Whether `res` is a failure with status `code`, a message that contains
/// `msg`, and no data.
pub fn assert_res_error(res: CommandResponse, code: u32, msg: &str) -> (r: bool)
    ensures
        r == (res.status == code && contains_text(res.message@, msg@) && res.values@.len() == 0
            && res.pairs@.len() == 0),
{
    res.status == code && contains_str(res.message.as_str(), msg) && res.values.len() == 0
        && res.pairs.len() == 0
}

/// Status mapping: a request without data is refused with 400; a read of an
/// absent key yields 404 with a message that begins "Not found"; a set
/// succeeds with 200 and the value the key had before, or the empty value.
pub proof fn lemma_dispatch_status(m0: Contents, m1: Contents, cmd: CommandRequest, r: CommandResponse)
    requires
        dispatch_effect(m0, m1, cmd, r),
    ensures
        cmd.request_data is None ==> r.status == STATUS_BAD_REQUEST,
        cmd.request_data matches Some(RequestData::Hget(h)) && !m0.contains_key((h.table@, h.key@))
            ==> r.status == STATUS_NOT_FOUND && r.message@.subrange(0, 9) == "Not found"@,
        cmd.request_data matches Some(RequestData::Hset(h)) ==> (h.pair matches Some(p) ==> (
        r.status == STATUS_OK && r.values@.len() == 1 && r.values@[0]@ == value_or_empty(
            m0,
            h.table@,
            p.key@,
        ))),
{
    reveal_strlit("Not found for table: ");
    reveal_strlit("Not found");
    if let Some(RequestData::Hget(h)) = cmd.request_data {
        if !m0.contains_key((h.table@, h.key@)) {
            assert(r.message@.subrange(0, 9) =~= "Not found"@);
        }
    }
}

/// A set and then a second set of the same key, from any store: the second
/// returns the value of the first, and a read then finds the second.
pub proof fn lemma_hset_twice(m: Contents, table: Seq<char>, key: Seq<char>, v1: ValueModel, v2: ValueModel, r: CommandResponse, g: CommandResponse)
    requires
        replies_value(r, value_or_empty(m.insert((table, key), v1), table, key)),
        hget_reply(m.insert((table, key), v1).insert((table, key), v2), table, key, g),
    ensures
        replies_value(r, v1),
        replies_value(g, v2),
{
}

} // verus!
