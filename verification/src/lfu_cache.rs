use vstd::prelude::*;
use vstd::laws_eq::obeys_concrete_eq;
use core::cmp::Ordering;

verus! {

/// One slot of an [`LFUCache`]: a key, its value, how often and when it
/// was last used, and whether it was written since it was loaded.
#[derive(Clone, Copy)]
pub struct Node<K: Eq + PartialEq + Copy, V: Clone> {
    key: K,
    value: V,
    cnt: usize,
    time: usize,
    dirty: bool,
}

impl<K: Eq + PartialEq + Copy, V: Clone> Node<K, V> {
    pub closed spec fn spec_key(&self) -> K {
        self.key
    }

    pub closed spec fn spec_value(&self) -> V {
        self.value
    }

    pub closed spec fn spec_cnt(&self) -> usize {
        self.cnt
    }

    pub closed spec fn spec_time(&self) -> usize {
        self.time
    }

    pub closed spec fn spec_dirty(&self) -> bool {
        self.dirty
    }

    /// The slot with the given key, value, use count, last use and written
    /// mark.
    pub closed spec fn spec_make(key: K, value: V, cnt: usize, time: usize, dirty: bool) -> Self {
        Node { key, value, cnt, time, dirty }
    }

    /// A fresh slot for `key` and `value`: never used, never written.
    pub open spec fn spec_new(key: K, value: V) -> Self {
        Self::spec_make(key, value, 0, 0, false)
    }

    /// A fresh slot: never used, never written.
    pub fn new(key: K, value: V) -> (n: Self)
        ensures
            n == Self::spec_new(key, value),
            n.spec_key() == key,
            n.spec_value() == value,
            n.spec_cnt() == 0,
            n.spec_time() == 0,
            !n.spec_dirty(),
    {
        Self { key, value, cnt: 0, time: 0, dirty: false }
    }
}


/// `a` is given up after `b`: it was used more often, or as often but later.
pub open spec fn evicted_after<K: Eq + PartialEq + Copy, V: Clone>(a: Node<K, V>, b: Node<K, V>) -> bool {
    a.spec_cnt() > b.spec_cnt() || (a.spec_cnt() == b.spec_cnt() && a.spec_time() > b.spec_time())
}

/// Index of the first slot in `s[i..n)` that holds `key`, or `n` if none does.
pub open spec fn find_from<K: Eq + PartialEq + Copy, V: Clone>(s: Seq<Node<K, V>>, i: int, n: int, key: K) -> int
    decreases n - i,
{
    if i >= n {
        n
    } else if s[i].spec_key() == key {
        i
    } else {
        find_from(s, i + 1, n, key)
    }
}

/// The order of two slots by use: by use count, then by last use.
pub open spec fn use_order<K: Eq + PartialEq + Copy, V: Clone>(a: Node<K, V>, b: Node<K, V>) -> Ordering {
    if evicted_after(a, b) {
        Ordering::Greater
    } else if evicted_after(b, a) {
        Ordering::Less
    } else {
        Ordering::Equal
    }
}

impl<K: Eq + PartialEq + Copy, V: Clone> Node<K, V> {
    /// Compares two slots by use count, then by last use: the order in
    /// which a full cache gives slots up, smallest first.
    pub fn cmp(&self, other: &Self) -> (r: Ordering)
        ensures
            r == use_order(*self, *other),
            (r == Ordering::Greater) == (self.spec_cnt() > other.spec_cnt()
                || (self.spec_cnt() == other.spec_cnt() && self.spec_time() > other.spec_time())),
            (r == Ordering::Less) == (self.spec_cnt() < other.spec_cnt()
                || (self.spec_cnt() == other.spec_cnt() && self.spec_time() < other.spec_time())),
            (r == Ordering::Equal) == (self.spec_cnt() == other.spec_cnt() && self.spec_time() == other.spec_time()),
    {
        if self.cnt > other.cnt || (self.cnt == other.cnt && self.time > other.time) {
            Ordering::Greater
        } else if other.cnt > self.cnt || (other.cnt == self.cnt && other.time > self.time) {
            Ordering::Less
        } else {
            Ordering::Equal
        }
    }

    /// Compares two slots by use, as `cmp` does.
    pub fn partial_cmp(&self, other: &Self) -> (r: Option<Ordering>)
        ensures
            r == Some(use_order(*self, *other)),
    {
        Some(self.cmp(other))
    }
}

impl<K: Eq + PartialEq + Copy, V: Clone> PartialEq for Node<K, V> {
    fn eq(&self, other: &Self) -> (r: bool) {
        self.cnt == other.cnt
    }
}

impl<K: Eq + PartialEq + Copy, V: Clone> vstd::std_specs::cmp::PartialEqSpecImpl for Node<K, V> {
    open spec fn obeys_eq_spec() -> bool {
        true
    }

    /// Two slots are equal when they were used equally often.
    open spec fn eq_spec(&self, other: &Self) -> bool {
        self.spec_cnt() == other.spec_cnt()
    }
}

impl<K: Eq + PartialEq + Copy, V: Clone> Eq for Node<K, V> {}

/// Inserts `x` into `s` after every slot that is not given up after it:
/// one step of a stable insertion sort.
pub open spec fn insert_by_use<K: Eq + PartialEq + Copy, V: Clone>(s: Seq<Node<K, V>>, x: Node<K, V>) -> Seq<Node<K, V>>
    decreases s.len(),
{
    if s.len() == 0 {
        seq![x]
    } else if !evicted_after(s.last(), x) {
        s.push(x)
    } else {
        insert_by_use(s.drop_last(), x).push(s.last())
    }
}

/// `s` stably sorted by use: fewer uses first, then older use first; slots
/// that compare equal keep their order.
pub open spec fn sort_by_use<K: Eq + PartialEq + Copy, V: Clone>(s: Seq<Node<K, V>>) -> Seq<Node<K, V>>
    decreases s.len(),
{
    if s.len() == 0 {
        s
    } else {
        insert_by_use(sort_by_use(s.drop_last()), s.last())
    }
}

/// No slot of `s` is given up after a slot that follows it.
pub open spec fn sorted_by_use<K: Eq + PartialEq + Copy, V: Clone>(s: Seq<Node<K, V>>) -> bool {
    forall|a: int, b: int| 0 <= a < b < s.len() ==> !evicted_after(#[trigger] s[a], #[trigger] s[b])
}

impl<K: Eq + PartialEq + Copy, V: Clone> Node<K, V> {
    /// The slot after a hit at time `t`: one more use, last used at `t`.
    pub open spec fn touched(self, t: usize) -> Self {
        Self::spec_make(self.spec_key(), self.spec_value(), (self.spec_cnt() + 1) as usize, t, self.spec_dirty())
    }

    /// The slot after a store hit at time `t`: new value, one more use, last
    /// used at `t`; marked as written if it was or if `written` is set.
    pub open spec fn rewritten(self, value: V, t: usize, written: bool) -> Self {
        Self::spec_make(self.spec_key(), value, (self.spec_cnt() + 1) as usize, t, self.spec_dirty() || written)
    }

    /// The slot reused for `key` at time `t`: used once, at `t`, and marked
    /// as written exactly when `written` is set.
    pub open spec fn refilled(self, key: K, value: V, t: usize, written: bool) -> Self {
        Self::spec_make(key, value, 1, t, written)
    }
}

/// A slot made from its parts has those parts.
pub broadcast proof fn lemma_spec_make<K: Eq + PartialEq + Copy, V: Clone>(key: K, value: V, cnt: usize, time: usize, dirty: bool)
    ensures
        #![trigger Node::<K, V>::spec_make(key, value, cnt, time, dirty)]
        Node::<K, V>::spec_make(key, value, cnt, time, dirty).spec_key() == key,
        Node::<K, V>::spec_make(key, value, cnt, time, dirty).spec_value() == value,
        Node::<K, V>::spec_make(key, value, cnt, time, dirty).spec_cnt() == cnt,
        Node::<K, V>::spec_make(key, value, cnt, time, dirty).spec_time() == time,
        Node::<K, V>::spec_make(key, value, cnt, time, dirty).spec_dirty() == dirty,
{
}

/// Two slots with the same parts are the same slot.
pub proof fn lemma_node_ext<K: Eq + PartialEq + Copy, V: Clone>(a: Node<K, V>, b: Node<K, V>)
    requires
        a.spec_key() == b.spec_key(),
        a.spec_value() == b.spec_value(),
        a.spec_cnt() == b.spec_cnt(),
        a.spec_time() == b.spec_time(),
        a.spec_dirty() == b.spec_dirty(),
    ensures
        a == b,
{
}

pub broadcast group group_node {
    lemma_spec_make,
}

/// Whether `a` is given up after `b`.
fn later_use<K: Eq + PartialEq + Copy, V: Clone>(a: &Node<K, V>, b: &Node<K, V>) -> (r: bool)
    ensures
        r == evicted_after(*a, *b),
        r == (a.spec_cnt() > b.spec_cnt() || (a.spec_cnt() == b.spec_cnt() && a.spec_time() > b.spec_time())),
{
    a.cnt > b.cnt || (a.cnt == b.cnt && a.time > b.time)
}

pub proof fn lemma_insert_by_use_len<K: Eq + PartialEq + Copy, V: Clone>(s: Seq<Node<K, V>>, x: Node<K, V>)
    ensures
        insert_by_use(s, x).len() == s.len() + 1,
    decreases s.len(),
{
    if s.len() > 0 && evicted_after(s.last(), x) {
        lemma_insert_by_use_len(s.drop_last(), x);
    }
}

pub proof fn lemma_sort_by_use_len<K: Eq + PartialEq + Copy, V: Clone>(s: Seq<Node<K, V>>)
    ensures
        sort_by_use(s).len() == s.len(),
    decreases s.len(),
{
    if s.len() > 0 {
        lemma_sort_by_use_len(s.drop_last());
        lemma_insert_by_use_len(sort_by_use(s.drop_last()), s.last());
    }
}

/// Inserting `x` puts it right after the last slot of `s` that is not given
/// up after it, when every slot from `j` on is given up after it.
proof fn lemma_insert_by_use<K: Eq + PartialEq + Copy, V: Clone>(s: Seq<Node<K, V>>, x: Node<K, V>, j: int)
    requires
        0 <= j <= s.len(),
        forall|k: int| j <= k < s.len() ==> evicted_after(#[trigger] s[k], x),
        j == 0 || !evicted_after(s[j - 1], x),
    ensures
        insert_by_use(s, x) == s.subrange(0, j) + seq![x] + s.subrange(j, s.len() as int),
    decreases s.len(),
{
    if s.len() == 0 {
        assert(insert_by_use(s, x) =~= s.subrange(0, j) + seq![x] + s.subrange(j, s.len() as int));
    } else if !evicted_after(s.last(), x) {
        assert(j == s.len());
        assert(insert_by_use(s, x) =~= s.subrange(0, j) + seq![x] + s.subrange(j, s.len() as int));
    } else {
        let t = s.drop_last();
        assert(j < s.len());
        lemma_insert_by_use(t, x, j);
        assert(insert_by_use(s, x) =~= s.subrange(0, j) + seq![x] + s.subrange(j, s.len() as int));
    }
}

proof fn lemma_insert_by_use_multiset<K: Eq + PartialEq + Copy, V: Clone>(s: Seq<Node<K, V>>, x: Node<K, V>)
    ensures
        insert_by_use(s, x).to_multiset() =~= s.to_multiset().insert(x),
    decreases s.len(),
{
    broadcast use vstd::seq_lib::group_to_multiset_ensures;
    if s.len() == 0 {
        assert(seq![x] =~= s.push(x));
    } else if !evicted_after(s.last(), x) {
    } else {
        let t = s.drop_last();
        lemma_insert_by_use_multiset(t, x);
        assert(s =~= t.push(s.last()));
    }
}

proof fn lemma_insert_by_use_sorted<K: Eq + PartialEq + Copy, V: Clone>(s: Seq<Node<K, V>>, x: Node<K, V>)
    requires
        sorted_by_use(s),
    ensures
        sorted_by_use(insert_by_use(s, x)),
    decreases s.len(),
{
    broadcast use vstd::seq_lib::group_to_multiset_ensures;
    let r = insert_by_use(s, x);
    if s.len() == 0 {
    } else if !evicted_after(s.last(), x) {
        assert forall|a: int, b: int| 0 <= a < b < r.len() implies !evicted_after(#[trigger] r[a], #[trigger] r[b]) by {
            if b == s.len() {
                assert(!evicted_after(s[a], s.last()));
            }
        }
    } else {
        let t = s.drop_last();
        let last = s.last();
        lemma_insert_by_use_sorted(t, x);
        lemma_insert_by_use_multiset(t, x);
        lemma_insert_by_use_len(t, x);
        let u = insert_by_use(t, x);
        assert forall|a: int, b: int| 0 <= a < b < r.len() implies !evicted_after(#[trigger] r[a], #[trigger] r[b]) by {
            if b == u.len() {
                let y = u[a];
                assert(u.to_multiset().count(y) > 0);
                assert(t.to_multiset().insert(x).count(y) > 0);
                if y != x {
                    assert(t.to_multiset().count(y) > 0);
                    assert(t.contains(y));
                    let k = choose|k: int| 0 <= k < t.len() && t[k] == y;
                    assert(s[k] == y);
                    assert(!evicted_after(s[k], s[s.len() - 1]));
                }
            } else {
                assert(r[a] == u[a]);
                assert(r[b] == u[b]);
            }
        }
    }
}

/// Sorting by use keeps every slot and orders them.
pub proof fn lemma_sort_by_use<K: Eq + PartialEq + Copy, V: Clone>(s: Seq<Node<K, V>>)
    ensures
        sort_by_use(s).to_multiset() =~= s.to_multiset(),
        sorted_by_use(sort_by_use(s)),
        sort_by_use(s).len() == s.len(),
    decreases s.len(),
{
    broadcast use vstd::seq_lib::group_to_multiset_ensures;
    lemma_sort_by_use_len(s);
    if s.len() > 0 {
        let t = s.drop_last();
        lemma_sort_by_use(t);
        lemma_insert_by_use_multiset(sort_by_use(t), s.last());
        lemma_insert_by_use_sorted(sort_by_use(t), s.last());
        assert(s =~= t.push(s.last()));
    }
}

/// The slot that a full cache gives up, the first of the slots sorted by use,
/// has no more uses than any other slot, and among the slots with as few
/// uses it was used least recently.
pub proof fn lemma_victim_least_used<K: Eq + PartialEq + Copy, V: Clone>(s: Seq<Node<K, V>>)
    requires
        s.len() > 0,
    ensures
        forall|k: int| 0 <= k < s.len() ==> !evicted_after(sort_by_use(s)[0], #[trigger] s[k]),
{
    broadcast use vstd::seq_lib::group_to_multiset_ensures;
    lemma_sort_by_use(s);
    let r = sort_by_use(s);
    assert forall|k: int| 0 <= k < s.len() implies !evicted_after(r[0], #[trigger] s[k]) by {
        let y = s[k];
        assert(s.to_multiset().count(y) > 0);
        assert(r.to_multiset().count(y) > 0);
        assert(r.contains(y));
        let m = choose|m: int| 0 <= m < r.len() && r[m] == y;
        if m > 0 {
            assert(!evicted_after(r[0], r[m]));
        }
    }
}

/// The slots after storing `value` under `key` at time `t` on slots `s` of
/// which the first `size` are taken; `written` tells whether the store is a
/// write (the slot must later be written back) or a fill from the device.
/// Only the taken slots are searched for `key`.
pub open spec fn put_nodes<K: Eq + PartialEq + Copy, V: Clone>(s: Seq<Node<K, V>>, size: nat, t: usize, key: K, value: V, written: bool) -> Seq<Node<K, V>> {
    let j = find_from(s, 0, size as int, key);
    if j < size {
        s.update(j, s[j].rewritten(value, t, written))
    } else if size < s.len() {
        s.update(size as int, s[size as int].refilled(key, value, t, written))
    } else {
        sort_by_use(s).update(0, sort_by_use(s)[0].refilled(key, value, t, written))
    }
}

/// How many slots are taken after storing under `key` on slots `s` of which
/// the first `size` are taken.
pub open spec fn put_size<K: Eq + PartialEq + Copy, V: Clone>(s: Seq<Node<K, V>>, size: nat, key: K) -> nat {
    if find_from(s, 0, size as int, key) == size && size < s.len() {
        size + 1
    } else {
        size
    }
}

/// Storing under `key` gives up a slot that was written to: `key` is not
/// among the taken slots, all slots are taken, and the slot given up (the
/// first by use) is marked as written.
pub open spec fn evicts_written<K: Eq + PartialEq + Copy, V: Clone>(s: Seq<Node<K, V>>, size: nat, key: K) -> bool {
    &&& find_from(s, 0, size as int, key) == size
    &&& size == s.len()
    &&& sort_by_use(s)[0].spec_dirty()
}

proof fn lemma_find_from_update<K: Eq + PartialEq + Copy, V: Clone>(s: Seq<Node<K, V>>, i: int, n: int, key: K, j: int, y: Node<K, V>)
    requires
        0 <= i,
        n <= s.len(),
        0 <= j < s.len(),
        y.spec_key() == s[j].spec_key(),
    ensures
        find_from(s.update(j, y), i, n, key) == find_from(s, i, n, key),
    decreases n - i,
{
    if i < n {
        lemma_find_from_update(s, i + 1, n, key, j, y);
    }
}

proof fn lemma_find_from_none<K: Eq + PartialEq + Copy, V: Clone>(s: Seq<Node<K, V>>, i: int, n: int, key: K)
    requires
        i <= n,
        find_from(s, i, n, key) == n,
    ensures
        forall|k: int| i <= k < n ==> (#[trigger] s[k]).spec_key() != key,
    decreases n - i,
{
    if i < n {
        lemma_find_from_none(s, i + 1, n, key);
    }
}

proof fn lemma_find_from_first<K: Eq + PartialEq + Copy, V: Clone>(s: Seq<Node<K, V>>, i: int, n: int, key: K)
    requires
        i < n,
        forall|k: int| i <= k < n - 1 ==> (#[trigger] s[k]).spec_key() != key,
        s[n - 1].spec_key() == key,
    ensures
        find_from(s, i, n, key) == n - 1,
    decreases n - i,
{
    if i < n - 1 {
        lemma_find_from_first(s, i + 1, n, key);
    }
}

/// Read after write: after storing `value` under `key`, the next
/// `get(key)` finds `key` among the taken slots, holding `value`; after a
/// write (`put`) the slot is marked as written, so that it is handed back
/// for writing back when it is given up.
pub proof fn lemma_get_after_put<K: Eq + PartialEq + Copy, V: Clone>(s: Seq<Node<K, V>>, size: nat, t: usize, key: K, value: V, written: bool)
    requires
        s.len() > 0,
        size <= s.len(),
    ensures
        ({
            let s2 = put_nodes(s, size, t, key, value, written);
            let n2 = put_size(s, size, key);
            let j = find_from(s2, 0, n2 as int, key);
            &&& j < n2
            &&& s2[j].spec_key() == key
            &&& s2[j].spec_value() == value
            &&& written ==> s2[j].spec_dirty()
        }),
{
    broadcast use group_node;
    let n = size as int;
    let j = find_from(s, 0, n, key);
    lemma_find_from_hit(s, 0, n, key);
    if j < n {
        lemma_find_from_update(s, 0, n, key, j, s[j].rewritten(value, t, written));
    } else if size < s.len() {
        let s2 = s.update(size as int, s[size as int].refilled(key, value, t, written));
        lemma_find_from_none(s, 0, n, key);
        lemma_find_from_first(s2, 0, size as int + 1, key);
    } else {
        lemma_sort_by_use(s);
    }
}

proof fn lemma_find_from_hit<K: Eq + PartialEq + Copy, V: Clone>(s: Seq<Node<K, V>>, i: int, n: int, key: K)
    ensures
        i <= n ==> i <= find_from(s, i, n, key) <= n,
        find_from(s, i, n, key) < n ==> i <= find_from(s, i, n, key) && s[find_from(s, i, n, key)].spec_key() == key,
    decreases n - i,
{
    if i < n && s[i].spec_key() != key {
        lemma_find_from_hit(s, i + 1, n, key);
    }
}

/// No two of the first `n` slots of `s` hold the same key.
pub open spec fn keys_distinct<K: Eq + PartialEq + Copy, V: Clone>(s: Seq<Node<K, V>>, n: int) -> bool {
    forall|a: int, b: int| 0 <= a < b < n ==> (#[trigger] s[a]).spec_key() != (#[trigger] s[b]).spec_key()
}

/// Every slot of a sorted sequence is a slot of the sequence.
proof fn lemma_sort_by_use_member<K: Eq + PartialEq + Copy, V: Clone>(s: Seq<Node<K, V>>, k: int)
    requires
        0 <= k < s.len(),
    ensures
        sort_by_use(s).len() == s.len(),
        exists|m: int| 0 <= m < s.len() && s[m] == sort_by_use(s)[k],
{
    broadcast use vstd::seq_lib::group_to_multiset_ensures;
    lemma_sort_by_use(s);
    let y = sort_by_use(s)[k];
    assert(sort_by_use(s).to_multiset().count(y) > 0);
    assert(s.to_multiset().count(y) > 0);
    assert(s.contains(y));
}

proof fn lemma_insert_by_use_keys<K: Eq + PartialEq + Copy, V: Clone>(s: Seq<Node<K, V>>, x: Node<K, V>)
    requires
        keys_distinct(s, s.len() as int),
        forall|k: int| 0 <= k < s.len() ==> (#[trigger] s[k]).spec_key() != x.spec_key(),
    ensures
        keys_distinct(insert_by_use(s, x), s.len() + 1int),
    decreases s.len(),
{
    broadcast use vstd::seq_lib::group_to_multiset_ensures;
    lemma_insert_by_use_len(s, x);
    if s.len() == 0 {
    } else if !evicted_after(s.last(), x) {
        let r = s.push(x);
        assert forall|a: int, b: int| 0 <= a < b < s.len() + 1 implies (#[trigger] r[a]).spec_key() != (#[trigger] r[b]).spec_key() by {
            assert(r[a] == s[a]);
            if b < s.len() {
                assert(r[b] == s[b]);
            }
        }
    } else {
        let t = s.drop_last();
        let last = s.last();
        lemma_insert_by_use_keys(t, x);
        lemma_insert_by_use_multiset(t, x);
        lemma_insert_by_use_len(t, x);
        let u = insert_by_use(t, x);
        let r = u.push(last);
        assert forall|a: int, b: int| 0 <= a < b < s.len() + 1 implies (#[trigger] r[a]).spec_key() != (#[trigger] r[b]).spec_key() by {
            assert(r[a] == u[a]);
            if b < u.len() {
                assert(r[b] == u[b]);
            } else {
                let y = u[a];
                assert(u.to_multiset().count(y) > 0);
                assert(t.to_multiset().insert(x).count(y) > 0);
                if y != x {
                    assert(t.to_multiset().count(y) > 0);
                    assert(t.contains(y));
                    let m = choose|m: int| 0 <= m < t.len() && t[m] == y;
                    assert(s[m] == y);
                    assert(s[s.len() - 1] == last);
                }
            }
        }
    }
}

/// Sorting slots with distinct keys keeps the keys distinct.
proof fn lemma_sort_by_use_keys<K: Eq + PartialEq + Copy, V: Clone>(s: Seq<Node<K, V>>)
    requires
        keys_distinct(s, s.len() as int),
    ensures
        keys_distinct(sort_by_use(s), s.len() as int),
    decreases s.len(),
{
    if s.len() > 0 {
        let t = s.drop_last();
        let last = s.last();
        lemma_sort_by_use_keys(t);
        lemma_sort_by_use_len(t);
        let u = sort_by_use(t);
        assert forall|k: int| 0 <= k < u.len() implies (#[trigger] u[k]).spec_key() != last.spec_key() by {
            lemma_sort_by_use_member(t, k);
            let m = choose|m: int| 0 <= m < t.len() && t[m] == u[k];
            assert(s[m] == t[m]);
        }
        lemma_insert_by_use_keys(u, last);
    }
}

proof fn lemma_find_from_agree<K: Eq + PartialEq + Copy, V: Clone>(s1: Seq<Node<K, V>>, s2: Seq<Node<K, V>>, i: int, n: int, key: K)
    requires
        0 <= i,
        n <= s1.len(),
        n <= s2.len(),
        forall|k: int| i <= k < n ==> s1[k] == s2[k],
    ensures
        find_from(s1, i, n, key) == find_from(s2, i, n, key),
    decreases n - i,
{
    if i < n {
        lemma_find_from_agree(s1, s2, i + 1, n, key);
    }
}

proof fn lemma_find_from_extend<K: Eq + PartialEq + Copy, V: Clone>(s: Seq<Node<K, V>>, i: int, n: int, key: K)
    requires
        0 <= i <= n,
        n < s.len(),
    ensures
        find_from(s, i, n + 1, key) == if find_from(s, i, n, key) < n {
            find_from(s, i, n, key)
        } else if s[n].spec_key() == key {
            n
        } else {
            n + 1
        },
    decreases n - i,
{
    if i < n && s[i].spec_key() != key {
        lemma_find_from_extend(s, i + 1, n, key);
    } else if i == n && s[n].spec_key() != key {
        assert(find_from(s, n + 1, n + 1, key) == n + 1);
    }
}

/// A key held by one of the first `n` slots, where the keys are distinct,
/// is found at that slot.
proof fn lemma_find_from_at<K: Eq + PartialEq + Copy, V: Clone>(s: Seq<Node<K, V>>, n: int, m: int, key: K)
    requires
        0 <= m < n <= s.len(),
        s[m].spec_key() == key,
        keys_distinct(s, n),
    ensures
        find_from(s, 0, n, key) == m,
{
    lemma_find_from_hit(s, 0, n, key);
    if find_from(s, 0, n, key) == n {
        lemma_find_from_none(s, 0, n, key);
    }
    let j = find_from(s, 0, n, key);
    if j < m {
        assert(s[j].spec_key() != s[m].spec_key());
    } else if j > m {
        assert(s[m].spec_key() != s[j].spec_key());
    }
}

/// Storing keeps the keys of the taken slots distinct: a key is taken by at
/// most one slot, so `all()` lists each key once.
pub proof fn lemma_put_keeps_keys_distinct<K: Eq + PartialEq + Copy, V: Clone>(s: Seq<Node<K, V>>, size: nat, t: usize, key: K, value: V, written: bool)
    requires
        s.len() > 0,
        size <= s.len(),
        keys_distinct(s, size as int),
    ensures
        keys_distinct(put_nodes(s, size, t, key, value, written), put_size(s, size, key) as int),
{
    broadcast use group_node;
    let n = size as int;
    let j = find_from(s, 0, n, key);
    lemma_find_from_hit(s, 0, n, key);
    let s2 = put_nodes(s, size, t, key, value, written);
    if j < n {
        assert forall|a: int, b: int| 0 <= a < b < n implies (#[trigger] s2[a]).spec_key() != (#[trigger] s2[b]).spec_key() by {
            assert(s2[a].spec_key() == s[a].spec_key());
            assert(s2[b].spec_key() == s[b].spec_key());
        }
    } else if size < s.len() {
        lemma_find_from_none(s, 0, n, key);
        assert forall|a: int, b: int| 0 <= a < b < n + 1 implies (#[trigger] s2[a]).spec_key() != (#[trigger] s2[b]).spec_key() by {
            assert(s2[a] == s[a]);
            if b < n {
                assert(s2[b] == s[b]);
            }
        }
    } else {
        lemma_find_from_none(s, 0, n, key);
        lemma_sort_by_use_keys(s);
        lemma_sort_by_use_len(s);
        let r = sort_by_use(s);
        assert forall|a: int, b: int| 0 <= a < b < n implies (#[trigger] s2[a]).spec_key() != (#[trigger] s2[b]).spec_key() by {
            assert(s2[b] == r[b]);
            if a > 0 {
                assert(s2[a] == r[a]);
            } else {
                lemma_sort_by_use_member(s, b);
                let m = choose|m: int| 0 <= m < s.len() && s[m] == r[b];
                assert(s[m].spec_key() != key);
            }
        }
    }
}

/// Storing under `key` keeps what the cache holds under every other key:
/// a key other than `key` found among the taken slots afterwards was found
/// before, with the same value. Together with `lemma_get_after_put`, the
/// pairs that `all()` lists hold the value last stored under each key.
pub proof fn lemma_put_keeps_other_values<K: Eq + PartialEq + Copy, V: Clone>(
    s: Seq<Node<K, V>>,
    size: nat,
    t: usize,
    key: K,
    value: V,
    written: bool,
    other: K,
)
    requires
        s.len() > 0,
        size <= s.len(),
        keys_distinct(s, size as int),
        other != key,
    ensures
        ({
            let s2 = put_nodes(s, size, t, key, value, written);
            let n2 = put_size(s, size, key);
            let j2 = find_from(s2, 0, n2 as int, other);
            let j = find_from(s, 0, size as int, other);
            j2 < n2 ==> j < size && s2[j2].spec_value() == s[j].spec_value()
        }),
{
    broadcast use group_node;
    let n = size as int;
    let s2 = put_nodes(s, size, t, key, value, written);
    let n2 = put_size(s, size, key);
    let jk = find_from(s, 0, n, key);
    lemma_find_from_hit(s, 0, n, key);
    lemma_find_from_hit(s, 0, n, other);
    lemma_find_from_hit(s2, 0, n2 as int, other);
    let j2 = find_from(s2, 0, n2 as int, other);
    if jk < n {
        lemma_find_from_update(s, 0, n, other, jk, s[jk].rewritten(value, t, written));
        if j2 < n2 {
            assert(j2 != jk);
        }
    } else if size < s.len() {
        lemma_find_from_agree(s, s2, 0, n, other);
        lemma_find_from_extend(s2, 0, n, other);
        if j2 < n2 {
            assert(j2 < n);
            assert(s2[j2] == s[j2]);
        }
    } else {
        if j2 < n2 {
            lemma_sort_by_use_len(s);
            let r = sort_by_use(s);
            assert(j2 != 0);
            assert(s2[j2] == r[j2]);
            lemma_sort_by_use_member(s, j2);
            let m = choose|m: int| 0 <= m < s.len() && s[m] == r[j2];
            lemma_find_from_at(s, n, m, other);
        }
    }
}

/// What one operation does to slots `s` of which the first `size` are
/// taken, at time `t`: a store under `key` (`Some((value, written))`) does
/// what `put` and `fill` do, a lookup (`None`) what `get` does.
pub open spec fn cache_step<K: Eq + PartialEq + Copy, V: Clone>(
    s: Seq<Node<K, V>>,
    size: nat,
    key: K,
    store: Option<(V, bool)>,
    t: usize,
    s2: Seq<Node<K, V>>,
    size2: nat,
) -> bool {
    match store {
        Some(vw) => s2 == put_nodes(s, size, t, key, vw.0, vw.1) && size2 == put_size(s, size, key),
        None => {
            let j = find_from(s, 0, size as int, key);
            &&& size2 == size
            &&& s2 == if j < size { s.update(j, s[j].touched(t)) } else { s }
        },
    }
}

/// Whether one of the first `i` operations of `ops` stored under `k`.
pub open spec fn stored_before<K, V>(ops: Seq<(K, Option<(V, bool)>)>, i: int, k: K) -> bool {
    exists|j: int| 0 <= j < i && (#[trigger] ops[j]).0 == k && ops[j].1 is Some
}

/// The value that the last of the first `i` operations of `ops` that stored
/// under `k` stored.
pub open spec fn last_stored<K, V>(ops: Seq<(K, Option<(V, bool)>)>, i: int, k: K) -> V
    decreases i,
{
    if i <= 0 {
        arbitrary()
    } else if ops[i - 1].0 == k && ops[i - 1].1 is Some {
        ops[i - 1].1->Some_0.0
    } else {
        last_stored(ops, i - 1, k)
    }
}

/// Slots whose taken keys are distinct and all among `keys` leave a slot
/// free when a key of `keys` that is not taken comes in.
proof fn lemma_taken_below<K: Eq + PartialEq + Copy, V: Clone>(s: Seq<Node<K, V>>, size: nat, keys: Seq<K>, key: K)
    requires
        size <= s.len(),
        keys_distinct(s, size as int),
        forall|m: int| 0 <= m < size ==> keys.contains(#[trigger] s[m].spec_key()),
        keys.contains(key),
        forall|m: int| 0 <= m < size ==> (#[trigger] s[m]).spec_key() != key,
    ensures
        size < keys.len(),
{
    broadcast use vstd::set::group_set_axioms;
    broadcast use vstd::seq_lib::seq_to_set_is_finite;
    let t = Seq::new(size, |m: int| s[m].spec_key());
    assert(t.no_duplicates()) by {
        assert forall|a: int, b: int| 0 <= a < t.len() && 0 <= b < t.len() && a != b implies t[a] != t[b] by {
            if a < b {
                assert(s[a].spec_key() != s[b].spec_key());
            } else {
                assert(s[b].spec_key() != s[a].spec_key());
            }
        }
    }
    t.unique_seq_to_set();
    keys.lemma_cardinality_of_set();
    let ks = keys.to_set();
    assert(t.to_set().subset_of(ks.remove(key))) by {
        assert forall|x: K| t.to_set().contains(x) implies ks.remove(key).contains(x) by {
            assert(t.contains(x));
            let m = choose|m: int| 0 <= m < t.len() && t[m] == x;
            assert(s[m].spec_key() == x);
        }
    }
    vstd::set_lib::lemma_len_subset(t.to_set(), ks.remove(key));
    assert(ks.contains(key));
}

/// What holds after the first `i` operations of a series started on a
/// cache with no slot taken, when every key stored is one of `keys`, no
/// more keys than slots.
pub open spec fn keeps_everything<K: Eq + PartialEq + Copy, V: Clone>(
    s: Seq<Node<K, V>>,
    size: nat,
    n: nat,
    ops: Seq<(K, Option<(V, bool)>)>,
    i: int,
    keys: Seq<K>,
) -> bool {
    &&& s.len() == n
    &&& size <= n
    &&& keys_distinct(s, size as int)
    &&& forall|m: int| 0 <= m < size ==> keys.contains(#[trigger] s[m].spec_key())
    &&& forall|k: K| #![trigger stored_before(ops, i, k)] stored_before(ops, i, k) ==> {
        let j = find_from(s, 0, size as int, k);
        &&& j < size
        &&& s[j].spec_value() == last_stored(ops, i, k)
    }
}

proof fn lemma_keeps_everything_step<K: Eq + PartialEq + Copy, V: Clone>(
    s: Seq<Node<K, V>>,
    size: nat,
    ops: Seq<(K, Option<(V, bool)>)>,
    i: int,
    keys: Seq<K>,
    t: usize,
    s2: Seq<Node<K, V>>,
    size2: nat,
)
    requires
        0 <= i < ops.len(),
        s.len() > 0,
        keys.len() <= s.len(),
        keeps_everything(s, size, s.len(), ops, i, keys),
        ops[i].1 is Some ==> keys.contains(ops[i].0),
        cache_step(s, size, ops[i].0, ops[i].1, t, s2, size2),
    ensures
        keeps_everything(s2, size2, s.len(), ops, i + 1, keys),
{
    broadcast use group_node;
    let key = ops[i].0;
    let n = size as int;
    let j = find_from(s, 0, n, key);
    lemma_find_from_hit(s, 0, n, key);
    match ops[i].1 {
        Some(vw) => {
            let value = vw.0;
            let written = vw.1;
            if j == n {
                lemma_find_from_none(s, 0, n, key);
                lemma_taken_below(s, size, keys, key);
            }
            assert(size < s.len() || j < n);
            lemma_put_keeps_keys_distinct(s, size, t, key, value, written);
            lemma_get_after_put(s, size, t, key, value, written);
            assert(s2.len() == s.len());
            assert forall|m: int| 0 <= m < size2 implies keys.contains(#[trigger] s2[m].spec_key()) by {
                if m < n && !(j == n && m == n) {
                    if m != j {
                        assert(s2[m] == s[m]);
                    }
                }
            }
            assert forall|k: K| #![trigger stored_before(ops, i + 1, k)] stored_before(ops, i + 1, k) implies {
                let j2 = find_from(s2, 0, size2 as int, k);
                &&& j2 < size2
                &&& s2[j2].spec_value() == last_stored(ops, i + 1, k)
            } by {
                if k != key {
                    let w = choose|w: int| 0 <= w < i + 1 && (#[trigger] ops[w]).0 == k && ops[w].1 is Some;
                    assert(stored_before(ops, i, k));
                    let jk = find_from(s, 0, n, k);
                    lemma_find_from_hit(s, 0, n, k);
                    if j < n {
                        lemma_find_from_update(s, 0, n, k, j, s[j].rewritten(value, t, written));
                        assert(jk != j);
                        assert(s2[jk] == s[jk]);
                    } else {
                        lemma_find_from_agree(s, s2, 0, n, k);
                        lemma_find_from_extend(s2, 0, n, k);
                        assert(s2[jk] == s[jk]);
                    }
                }
            }
        },
        None => {
            assert(s2.len() == s.len());
            assert forall|a: int, b: int| 0 <= a < b < size2 implies (#[trigger] s2[a]).spec_key() != (#[trigger] s2[b]).spec_key() by {
                assert(s2[a].spec_key() == s[a].spec_key());
                assert(s2[b].spec_key() == s[b].spec_key());
            }
            assert forall|m: int| 0 <= m < size2 implies keys.contains(#[trigger] s2[m].spec_key()) by {
                assert(s2[m].spec_key() == s[m].spec_key());
            }
            assert forall|k: K| #![trigger stored_before(ops, i + 1, k)] stored_before(ops, i + 1, k) implies {
                let j2 = find_from(s2, 0, size2 as int, k);
                &&& j2 < size2
                &&& s2[j2].spec_value() == last_stored(ops, i + 1, k)
            } by {
                let w = choose|w: int| 0 <= w < i + 1 && (#[trigger] ops[w]).0 == k && ops[w].1 is Some;
                assert(stored_before(ops, i, k));
                let jk = find_from(s, 0, n, k);
                lemma_find_from_hit(s, 0, n, k);
                assert(jk < n);
                if j < n {
                    lemma_find_from_update(s, 0, n, k, j, s[j].touched(t));
                    if jk == j {
                        assert(s2[jk] == s[j].touched(t));
                    } else {
                        assert(s2[jk] == s[jk]);
                    }
                }
            }
        },
    }
}

proof fn lemma_keeps_everything_upto<K: Eq + PartialEq + Copy, V: Clone>(
    ss: Seq<Seq<Node<K, V>>>,
    sizes: Seq<nat>,
    ops: Seq<(K, Option<(V, bool)>)>,
    ts: Seq<usize>,
    keys: Seq<K>,
    i: int,
)
    requires
        ss.len() == ops.len() + 1,
        sizes.len() == ops.len() + 1,
        ts.len() == ops.len(),
        sizes[0] == 0,
        ss[0].len() > 0,
        keys.len() <= ss[0].len(),
        forall|k: int| 0 <= k < ops.len() && (#[trigger] ops[k]).1 is Some ==> keys.contains(ops[k].0),
        forall|k: int| #![trigger ops[k]] 0 <= k < ops.len()
            ==> cache_step(ss[k], sizes[k], ops[k].0, ops[k].1, ts[k], ss[k + 1], sizes[k + 1]),
        0 <= i <= ops.len(),
    ensures
        keeps_everything(ss[i], sizes[i], ss[0].len(), ops, i, keys),
    decreases i,
{
    if i == 0 {
        assert forall|k: K| #![trigger stored_before(ops, 0, k)] !stored_before(ops, 0, k) by {}
    } else {
        lemma_keeps_everything_upto(ss, sizes, ops, ts, keys, i - 1);
        let _ = ops[i - 1];
        lemma_keeps_everything_step(ss[i - 1], sizes[i - 1], ops, i - 1, keys, ts[i - 1], ss[i], sizes[i]);
    }
}

/// A cache forgets nothing while it has room: starting with no slot taken,
/// after any series of stores and lookups (`ops`, taking the slots from
/// `ss[k]` to `ss[k + 1]`) whose stores use no more different keys
/// (`keys`) than there are slots, every key stored is found among the taken
/// slots holding the value last stored under it, no key is taken twice, and
/// nothing was given up.
pub proof fn lemma_cache_keeps_everything<K: Eq + PartialEq + Copy, V: Clone>(
    ss: Seq<Seq<Node<K, V>>>,
    sizes: Seq<nat>,
    ops: Seq<(K, Option<(V, bool)>)>,
    ts: Seq<usize>,
    keys: Seq<K>,
)
    requires
        ss.len() == ops.len() + 1,
        sizes.len() == ops.len() + 1,
        ts.len() == ops.len(),
        sizes[0] == 0,
        ss[0].len() > 0,
        keys.len() <= ss[0].len(),
        forall|k: int| 0 <= k < ops.len() && (#[trigger] ops[k]).1 is Some ==> keys.contains(ops[k].0),
        forall|k: int| #![trigger ops[k]] 0 <= k < ops.len()
            ==> cache_step(ss[k], sizes[k], ops[k].0, ops[k].1, ts[k], ss[k + 1], sizes[k + 1]),
    ensures
        keys_distinct(ss[ops.len() as int], sizes[ops.len() as int] as int),
        forall|k: K| stored_before(ops, ops.len() as int, k) ==> {
            let s = ss[ops.len() as int];
            let j = find_from(s, 0, sizes[ops.len() as int] as int, k);
            &&& j < sizes[ops.len() as int]
            &&& s[j].spec_value() == last_stored(ops, ops.len() as int, k)
        },
{
    lemma_keeps_everything_upto(ss, sizes, ops, ts, keys, ops.len() as int);
}

/// A written slot is never lost: when a taken slot holding `other` is
/// marked as written, one operation under another key either leaves
/// `other` taken, still marked as written and holding the same value, or
/// gives its slot up, and then the store hands back exactly `other` and
/// that value for writing back.
pub proof fn lemma_written_kept_or_handed_back<K: Eq + PartialEq + Copy, V: Clone>(
    s: Seq<Node<K, V>>,
    size: nat,
    key: K,
    store: Option<(V, bool)>,
    t: usize,
    s2: Seq<Node<K, V>>,
    size2: nat,
    other: K,
)
    requires
        s.len() > 0,
        size <= s.len(),
        keys_distinct(s, size as int),
        other != key,
        find_from(s, 0, size as int, other) < size,
        s[find_from(s, 0, size as int, other)].spec_dirty(),
        cache_step(s, size, key, store, t, s2, size2),
    ensures
        ({
            let j = find_from(s, 0, size as int, other);
            let j2 = find_from(s2, 0, size2 as int, other);
            let victim = sort_by_use(s)[0];
            ||| j2 < size2 && s2[j2].spec_dirty() && s2[j2].spec_value() == s[j].spec_value()
            ||| store is Some && evicts_written(s, size, key) && victim.spec_key() == other
                && victim.spec_value() == s[j].spec_value()
        }),
{
    broadcast use group_node;
    broadcast use vstd::seq_lib::group_to_multiset_ensures;
    let n = size as int;
    let jo = find_from(s, 0, n, other);
    let jk = find_from(s, 0, n, key);
    lemma_find_from_hit(s, 0, n, other);
    lemma_find_from_hit(s, 0, n, key);
    match store {
        Some(vw) => {
            let value = vw.0;
            let written = vw.1;
            if jk < n {
                lemma_find_from_update(s, 0, n, other, jk, s[jk].rewritten(value, t, written));
                assert(s2[jo] == s[jo]);
            } else if size < s.len() {
                lemma_find_from_agree(s, s2, 0, n, other);
                lemma_find_from_extend(s2, 0, n, other);
                assert(s2[jo] == s[jo]);
            } else {
                lemma_sort_by_use(s);
                let r = sort_by_use(s);
                let y = s[jo];
                assert(s.to_multiset().count(y) > 0);
                assert(r.to_multiset().count(y) > 0);
                assert(r.contains(y));
                let m = choose|m: int| 0 <= m < r.len() && r[m] == y;
                if m == 0 {
                    lemma_find_from_none(s, 0, n, key);
                } else {
                    lemma_put_keeps_keys_distinct(s, size, t, key, value, written);
                    assert(s2[m] == y);
                    lemma_find_from_at(s2, n, m, other);
                }
            }
        },
        None => {
            if jk < n {
                lemma_find_from_update(s, 0, n, other, jk, s[jk].touched(t));
                assert(s2[jo] == s[jo]);
            }
        },
    }
}

/// A lookup changes no key and no value: the pairs that `all()` lists stay
/// as they were.
pub proof fn lemma_get_keeps_pairs<K: Eq + PartialEq + Copy, V: Clone>(s: Seq<Node<K, V>>, j: int, t: usize)
    requires
        0 <= j < s.len(),
    ensures
        forall|k: int| 0 <= k < s.len() ==> {
            &&& (#[trigger] s.update(j, s[j].touched(t))[k]).spec_key() == s[k].spec_key()
            &&& s.update(j, s[j].touched(t))[k].spec_value() == s[k].spec_value()
        },
{
    broadcast use group_node;
}

/// Key equality of a type whose `==` is equality of values.
fn same_key<K: Eq + PartialEq + Copy>(a: &K, b: &K) -> (r: bool)
    requires
        obeys_concrete_eq::<K>(),
    ensures
        r == (*a == *b),
{
    proof {
        reveal(obeys_concrete_eq);
    }
    *a == *b
}

/// A cache of `N` slots that gives up the least frequently used slot, the
/// least recently used among those, when a new key comes in and all slots
/// are taken. A slot that was written to is handed back when given up, so
/// that it can be written back.
pub struct LFUCache<K: Eq + PartialEq + Copy, V: Clone, const N: usize> {
    data: [Node<K, V>; N],
    size: usize,
    time: usize,
}

impl<K: Eq + PartialEq + Copy, V: Clone, const N: usize> LFUCache<K, V, N> {
    /// At most `N` slots are taken.
    #[verifier::type_invariant]
    pub open spec fn wf(self) -> bool {
        self.spec_size() <= N
    }

    /// The slots, taken ones first.
    pub closed spec fn spec_nodes(&self) -> Seq<Node<K, V>> {
        self.data@
    }

    /// How many slots are taken.
    pub closed spec fn spec_size(&self) -> nat {
        self.size as nat
    }

    /// The clock: one tick per `get` or store.
    pub closed spec fn spec_time(&self) -> nat {
        self.time as nat
    }

    /// The clock, and the use counter of the taken slot holding `key` if
    /// there is one, can still be advanced by one: what `get`, `put` and
    /// `fill` of `key` advance.
    pub open spec fn counters_fit(&self, key: K) -> bool {
        let j = find_from(self.spec_nodes(), 0, self.spec_size() as int, key);
        &&& self.spec_time() < usize::MAX
        &&& j < self.spec_size() ==> self.spec_nodes()[j].spec_cnt() < usize::MAX
    }

    /// Whether `get`, `put` and `fill` of `key` may be called: the clock and
    /// the use counter of the taken slot holding `key` can be advanced.
    pub fn counters_fit_now(&self, key: &K) -> (r: bool)
        requires
            obeys_concrete_eq::<K>(),
        ensures
            r == self.counters_fit(*key),
    {
        proof {
            use_type_invariant(self);
        }
        if self.time == usize::MAX {
            return false;
        }
        let size = self.size;
        let mut i: usize = 0;
        while i < size
            invariant
                size == self.size,
                size <= N,
                i <= size,
                self.time < usize::MAX,
                find_from(self.data@, 0, size as int, *key) == find_from(self.data@, i as int, size as int, *key),
                obeys_concrete_eq::<K>(),
            decreases size - i,
        {
            if same_key(&self.data[i].key, key) {
                return self.data[i].cnt < usize::MAX;
            }
            i = i + 1;
        }
        true
    }

    /// What `get(key)` does: the clock ticks; on a hit among the taken
    /// slots the slot counts one more use, made now, and a clone of its
    /// value is returned; on a miss nothing else changes and `None` is
    /// returned.
    pub open spec fn get_result(before: Self, after: Self, key: K, r: Option<V>) -> bool {
        let s = before.spec_nodes();
        let j = find_from(s, 0, before.spec_size() as int, key);
        &&& after.spec_time() == before.spec_time() + 1
        &&& after.spec_size() == before.spec_size()
        &&& if j < before.spec_size() {
            &&& r matches Some(v) && cloned::<V>(s[j].spec_value(), v)
            &&& after.spec_nodes() == s.update(j, s[j].touched((before.spec_time() + 1) as usize))
        } else {
            &&& r is None
            &&& after.spec_nodes() == s
        }
    }

    /// What storing `value` under `key` does (`written` for `put`, not for
    /// `fill`): the slots become `put_nodes`, the taken ones `put_size`, the
    /// clock ticks, and the slot given up is handed back exactly when it was
    /// marked as written.
    pub open spec fn store_result(before: Self, after: Self, key: K, value: V, written: bool, r: Option<(K, V)>) -> bool {
        let s = before.spec_nodes();
        let victim = sort_by_use(s)[0];
        &&& after.spec_time() == before.spec_time() + 1
        &&& after.spec_nodes() == put_nodes(s, before.spec_size(), (before.spec_time() + 1) as usize, key, value, written)
        &&& after.spec_size() == put_size(s, before.spec_size(), key)
        &&& if evicts_written(s, before.spec_size(), key) {
            r matches Some(wb) && wb.0 == victim.spec_key() && cloned::<V>(victim.spec_value(), wb.1)
        } else {
            r is None
        }
    }

    /// What `all()` returns: the keys of the taken slots with clones of
    /// their values, in slot order.
    pub open spec fn all_result(c: Self, r: Seq<(K, V)>) -> bool {
        &&& r.len() == c.spec_size()
        &&& forall|i: int| 0 <= i < r.len() ==> {
            &&& (#[trigger] r[i]).0 == c.spec_nodes()[i].spec_key()
            &&& cloned::<V>(c.spec_nodes()[i].spec_value(), r[i].1)
        }
    }

    /// A cache has `N` slots.
    pub proof fn lemma_nodes_len(&self)
        ensures
            self.spec_nodes().len() == N,
    {
    }

    /// A cache whose slots are all taken by `data`.
    pub fn init(data: [Node<K, V>; N]) -> (c: Self)
        ensures
            c.spec_nodes() == data@,
            c.spec_size() == N,
            c.spec_time() == 0,
    {
        Self { data, size: N, time: 0 }
    }

    /// A cache with no slot taken; `data` provides the free slots.
    pub fn empty(data: [Node<K, V>; N]) -> (c: Self)
        ensures
            c.spec_nodes() == data@,
            c.spec_size() == 0,
            c.spec_time() == 0,
    {
        Self { data, size: 0, time: 0 }
    }

    /// Looks `key` up among the taken slots. On a hit the slot counts one
    /// more use, made now, and a clone of its value is returned; the clock
    /// ticks either way.
    pub fn get(&mut self, key: &K) -> (r: Option<V>)
        requires
            obeys_concrete_eq::<K>(),
            old(self).counters_fit(*key),
        ensures
            Self::get_result(*old(self), *final(self), *key, r),
    {
        proof {
            use_type_invariant(&*self);
        }
        self.time = self.time + 1;
        let time = self.time;
        let size = self.size;
        let mut i: usize = 0;
        while i < size
            invariant
                size == self.size,
                size <= N,
                i <= size,
                self.time == time,
                time == old(self).time + 1,
                self.data@ == old(self).data@,
                self.size == old(self).size,
                find_from(self.data@, 0, size as int, *key) == find_from(self.data@, i as int, size as int, *key),
                obeys_concrete_eq::<K>(),
                old(self).counters_fit(*key),
            decreases size - i,
        {
            if same_key(&self.data[i].key, key) {
                assert(old(self).spec_nodes()[i as int].spec_cnt() < usize::MAX);
                let v = self.data[i].value.clone();
                self.data[i].time = time;
                self.data[i].cnt = self.data[i].cnt + 1;
                proof {
                    let s = old(self).spec_nodes();
                    assert(self.data@ =~= s.update(i as int, s[i as int].touched(time)));
                }
                return Some(v);
            }
            i = i + 1;
        }
        None
    }

    /// Writes `value` under `key`; the clock ticks first. The slot is marked
    /// as written, so that it is handed back when it is given up.
    ///
    /// - If a taken slot holds `key`, the first such slot gets the value and
    ///   one more use, made now.
    /// - Otherwise, if a slot is free, the first free slot takes `key` and
    ///   `value`, used once, now.
    /// - Otherwise the taken slots are stably sorted by use (fewer uses
    ///   first, then older use first) and the first of them is given up to
    ///   `key` and `value`, used once, now. If it was marked as written, its
    ///   old key and a clone of its old value are returned to be written back.
    pub fn put(&mut self, key: &K, value: V) -> (r: Option<(K, V)>)
        requires
            obeys_concrete_eq::<K>(),
            old(self).counters_fit(*key),
            N > 0,
        ensures
            Self::store_result(*old(self), *final(self), *key, value, true, r),
            ({
                let j2 = find_from(final(self).spec_nodes(), 0, final(self).spec_size() as int, *key);
                &&& j2 < final(self).spec_size()
                &&& final(self).spec_nodes()[j2].spec_value() == value
                &&& final(self).spec_nodes()[j2].spec_dirty()
            }),
    {
        proof {
            use_type_invariant(&*self);
        }
        let ghost before = *self;
        let r = self.store(key, value, true);
        proof {
            lemma_get_after_put(before.spec_nodes(), before.spec_size(), (before.spec_time() + 1) as usize, *key, value, true);
        }
        r
    }

    /// Fills the cache with `value`, just read from the device, under `key`:
    /// as `put`, but the value is not marked as written (a slot that was
    /// written keeps its mark).
    pub fn fill(&mut self, key: &K, value: V) -> (r: Option<(K, V)>)
        requires
            obeys_concrete_eq::<K>(),
            old(self).counters_fit(*key),
            N > 0,
        ensures
            Self::store_result(*old(self), *final(self), *key, value, false, r),
            ({
                let j = find_from(old(self).spec_nodes(), 0, old(self).spec_size() as int, *key);
                let j2 = find_from(final(self).spec_nodes(), 0, final(self).spec_size() as int, *key);
                &&& j2 < final(self).spec_size()
                &&& final(self).spec_nodes()[j2].spec_value() == value
                &&& final(self).spec_nodes()[j2].spec_dirty() == (j < old(self).spec_size()
                    && old(self).spec_nodes()[j].spec_dirty())
            }),
    {
        proof {
            use_type_invariant(&*self);
        }
        let ghost before = *self;
        let r = self.store(key, value, false);
        proof {
            lemma_store_records_use(before, *self, *key, value, false, r);
        }
        r
    }

    fn store(&mut self, key: &K, value: V, written: bool) -> (r: Option<(K, V)>)
        requires
            obeys_concrete_eq::<K>(),
            old(self).counters_fit(*key),
            N > 0,
        ensures
            Self::store_result(*old(self), *final(self), *key, value, written, r),
    {
        proof {
            use_type_invariant(&*self);
        }
        self.time = self.time + 1;
        let time = self.time;
        let size = self.size;
        let mut i: usize = 0;
        while i < size
            invariant
                size == self.size,
                size <= N,
                i <= size,
                self.time == time,
                time == old(self).time + 1,
                self.data@ == old(self).data@,
                self.size == old(self).size,
                find_from(self.data@, 0, size as int, *key) == find_from(self.data@, i as int, size as int, *key),
                obeys_concrete_eq::<K>(),
                old(self).counters_fit(*key),
            decreases size - i,
        {
            if same_key(&self.data[i].key, key) {
                assert(old(self).spec_nodes()[i as int].spec_cnt() < usize::MAX);
                self.data[i].value = value;
                self.data[i].time = time;
                self.data[i].cnt = self.data[i].cnt + 1;
                self.data[i].dirty = self.data[i].dirty || written;
                proof {
                    let s = old(self).spec_nodes();
                    assert(self.data@ =~= s.update(i as int, s[i as int].rewritten(value, time, written)));
                }
                return None;
            }
            i = i + 1;
        }
        if size < N {
            self.data[size].key = *key;
            self.data[size].value = value;
            self.data[size].time = time;
            self.data[size].cnt = 1;
            self.data[size].dirty = written;
            self.size = size + 1;
            proof {
                let s = old(self).spec_nodes();
                assert(self.data@ =~= s.update(size as int, s[size as int].refilled(*key, value, time, written)));
            }
            return None;
        }
        proof {
            let s = old(self).data@;
            assert(s.subrange(0, N as int) =~= s);
            assert(s.subrange(N as int, N as int) =~= Seq::<Node<K, V>>::empty());
            assert(sort_by_use(s) =~= sort_by_use(s) + Seq::<Node<K, V>>::empty());
        }
        self.sort_taken_by_use();
        proof {
            assert(self.data@ =~= sort_by_use(old(self).data@));
        }
        let victim_dirty = self.data[0].dirty;
        let write_back = (self.data[0].key, self.data[0].value.clone());
        self.data[0].key = *key;
        self.data[0].value = value;
        self.data[0].time = time;
        self.data[0].cnt = 1;
        self.data[0].dirty = written;
        proof {
            let t = sort_by_use(old(self).data@);
            assert(self.data@ =~= t.update(0, t[0].refilled(*key, value, time, written)));
        }
        if victim_dirty {
            Some(write_back)
        } else {
            None
        }
    }

    /// Stably sorts the taken slots by use: fewer uses first, then older
    /// use first.
    fn sort_taken_by_use(&mut self)
        ensures
            final(self).size == old(self).size,
            final(self).time == old(self).time,
            final(self).data@ == sort_by_use(old(self).data@.subrange(0, old(self).size as int))
                + old(self).data@.subrange(old(self).size as int, N as int),
    {
        proof {
            use_type_invariant(&*self);
        }
        let size = self.size;
        let ghost orig = self.data@;
        let mut i: usize = 0;
        while i < size
            invariant
                size == self.size,
                size <= N,
                i <= size,
                self.time == old(self).time,
                orig == old(self).data@,
                self.data@.len() == N,
                self.data@.subrange(0, i as int) == sort_by_use(orig.subrange(0, i as int)),
                self.data@.subrange(i as int, N as int) == orig.subrange(i as int, N as int),
            decreases size - i,
        {
            let ghost p = sort_by_use(orig.subrange(0, i as int));
            let ghost x = orig[i as int];
            proof {
                lemma_sort_by_use_len(orig.subrange(0, i as int));
                assert(self.data@[i as int] == self.data@.subrange(i as int, N as int)[0]);
                assert(self.data@.subrange(0, i + 1) =~= p.subrange(0, i as int) + seq![x] + p.subrange(i as int, i as int));
                assert(orig.len() == N);
                assert(self.data@.subrange(i + 1, N as int) =~= self.data@.subrange(i as int, N as int).subrange(1, N - i));
                assert(orig.subrange(i + 1, N as int) =~= orig.subrange(i as int, N as int).subrange(1, N - i));
            }
            let mut j: usize = i;
            while j > 0 && later_use(&self.data[j - 1], &self.data[j])
                invariant
                    size == self.size,
                    size <= N,
                    i < size,
                    j <= i,
                    self.time == old(self).time,
                    self.data@.len() == N,
                    p.len() == i,
                    self.data@.subrange(0, i + 1) == p.subrange(0, j as int) + seq![x] + p.subrange(j as int, i as int),
                    self.data@.subrange(i + 1, N as int) == orig.subrange(i + 1, N as int),
                    forall|k: int| j <= k < i ==> evicted_after(#[trigger] p[k], x),
                    decreases j,
            {
                let ghost before = self.data@;
                let ghost j0 = j as int;
                proof {
                    let shape = p.subrange(0, j0) + seq![x] + p.subrange(j0, i as int);
                    assert(before[j0] == before.subrange(0, i + 1)[j0]);
                    assert(before[j0 - 1] == before.subrange(0, i + 1)[j0 - 1]);
                    assert(shape[j0] == x);
                    assert(shape[j0 - 1] == p[j0 - 1]);
                }
                let (l, r) = self.data.split_at_mut(j);
                core::mem::swap(&mut l[j - 1], &mut r[0]);
                j = j - 1;
                proof {
                    let shape0 = p.subrange(0, j0) + seq![x] + p.subrange(j0, i as int);
                    let shape1 = p.subrange(0, j as int) + seq![x] + p.subrange(j as int, i as int);
                    assert forall|k: int| 0 <= k <= i implies #[trigger] self.data@.subrange(0, i + 1)[k] == shape1[k] by {
                        assert(before.subrange(0, i + 1)[k] == shape0[k]);
                        if k < j0 - 1 {
                            assert(shape1[k] == p[k]);
                            assert(shape0[k] == p[k]);
                        } else if k == j0 - 1 {
                        } else if k == j0 {
                            assert(shape1[k] == p[j0 - 1]);
                        } else {
                            assert(shape1[k] == p[k - 1]);
                            assert(shape0[k] == p[k - 1]);
                        }
                    }
                    assert(self.data@.subrange(0, i + 1) =~= shape1);
                    assert(self.data@.subrange(i + 1, N as int) =~= before.subrange(i + 1, N as int));
                }
            }
            proof {
                let d = self.data@.subrange(0, i + 1);
                if j > 0 {
                    assert(d[j - 1] == p[j - 1]);
                    assert(d[j as int] == x);
                    assert(self.data@[j - 1] == d[j - 1]);
                    assert(self.data@[j as int] == d[j as int]);
                }
                lemma_insert_by_use(p, x, j as int);
                assert(orig.subrange(0, i + 1).drop_last() =~= orig.subrange(0, i as int));
                assert(orig.subrange(0, i + 1).last() == x);
                assert(self.data@.subrange(0, i + 1) == sort_by_use(orig.subrange(0, i + 1)));
                assert(self.data@.subrange(i + 1, N as int) =~= orig.subrange(i + 1, N as int));
            }
            i = i + 1;
        }
        proof {
            assert(self.data@ =~= self.data@.subrange(0, size as int) + self.data@.subrange(size as int, N as int));
        }
    }

    /// The keys of the taken slots with clones of their values, in slot order.
    pub fn all(&mut self) -> (r: Vec<(K, V)>)
        ensures
            *final(self) == *old(self),
            Self::all_result(*old(self), r@),
            r@.len() <= N,
    {
        proof {
            use_type_invariant(&*self);
        }
        let mut r: Vec<(K, V)> = Vec::new();
        let mut i: usize = 0;
        while i < self.size
            invariant
                self.size <= N,
                i <= self.size,
                *self == *old(self),
                r@.len() == i,
                forall|k: int| 0 <= k < i ==> {
                    &&& (#[trigger] r@[k]).0 == self.data@[k].key
                    &&& cloned::<V>(self.data@[k].value, r@[k].1)
                },
            decreases self.size - i,
        {
            r.push((self.data[i].key, self.data[i].value.clone()));
            i = i + 1;
        }
        r
    }
}

proof fn lemma_find_from_absent<K: Eq + PartialEq + Copy, V: Clone>(s: Seq<Node<K, V>>, i: int, n: int, key: K)
    requires
        0 <= i <= n,
        n <= s.len(),
        forall|k: int| i <= k < n ==> (#[trigger] s[k]).spec_key() != key,
    ensures
        find_from(s, i, n, key) == n,
    decreases n - i,
{
    if i < n {
        lemma_find_from_absent(s, i + 1, n, key);
    }
}

/// A lookup records the use it makes: on a hit the slot holding `key`
/// counts one more use and was last used at the cache's new clock, and
/// keeps its key, value and written mark; no other slot changes; on a miss
/// no slot changes and nothing is returned.
pub proof fn lemma_get_records_use<K: Eq + PartialEq + Copy, V: Clone, const N: usize>(
    before: LFUCache<K, V, N>,
    after: LFUCache<K, V, N>,
    key: K,
    r: Option<V>,
)
    requires
        LFUCache::<K, V, N>::get_result(before, after, key, r),
        before.counters_fit(key),
        before.spec_size() <= N,
    ensures
        ({
            let s = before.spec_nodes();
            let s2 = after.spec_nodes();
            let j = find_from(s, 0, before.spec_size() as int, key);
            &&& after.spec_time() == before.spec_time() + 1
            &&& after.spec_size() == before.spec_size()
            &&& s2.len() == s.len()
            &&& forall|k: int| 0 <= k < s.len() && k != j ==> s2[k] == s[k]
            &&& j < before.spec_size() ==> {
                &&& s2[j].spec_key() == key
                &&& s2[j].spec_value() == s[j].spec_value()
                &&& s2[j].spec_cnt() == s[j].spec_cnt() + 1
                &&& s2[j].spec_time() == after.spec_time()
                &&& s2[j].spec_dirty() == s[j].spec_dirty()
                &&& r matches Some(v) && cloned::<V>(s[j].spec_value(), v)
            }
            &&& j >= before.spec_size() ==> s2 == s && r is None
        }),
{
    broadcast use group_node;
    before.lemma_nodes_len();
    lemma_find_from_hit(before.spec_nodes(), 0, before.spec_size() as int, key);
}

/// A store records the use it makes: afterwards `key` is taken, holding
/// `value`, last used at the cache's new clock. A store to a taken key
/// counts one more use of its slot and marks it as written if it was or if
/// the store is a write, and hands nothing back; a store of a new key takes
/// the first free slot if there is one, used once, marked as written
/// exactly when the store is a write.
pub proof fn lemma_store_records_use<K: Eq + PartialEq + Copy, V: Clone, const N: usize>(
    before: LFUCache<K, V, N>,
    after: LFUCache<K, V, N>,
    key: K,
    value: V,
    written: bool,
    r: Option<(K, V)>,
)
    requires
        LFUCache::<K, V, N>::store_result(before, after, key, value, written, r),
        before.counters_fit(key),
        before.spec_size() <= N,
        N > 0,
    ensures
        ({
            let s = before.spec_nodes();
            let s2 = after.spec_nodes();
            let size = before.spec_size();
            let j = find_from(s, 0, size as int, key);
            let j2 = find_from(s2, 0, after.spec_size() as int, key);
            &&& after.spec_time() == before.spec_time() + 1
            &&& j2 < after.spec_size()
            &&& s2[j2].spec_key() == key
            &&& s2[j2].spec_value() == value
            &&& s2[j2].spec_time() == after.spec_time()
            &&& j < size ==> {
                &&& j2 == j
                &&& after.spec_size() == size
                &&& s2[j].spec_cnt() == s[j].spec_cnt() + 1
                &&& s2[j].spec_dirty() == (s[j].spec_dirty() || written)
                &&& forall|k: int| 0 <= k < N && k != j ==> s2[k] == s[k]
                &&& r is None
            }
            &&& j >= size ==> s2[j2].spec_cnt() == 1 && s2[j2].spec_dirty() == written
            &&& j >= size && size < N ==> {
                &&& j2 == size
                &&& after.spec_size() == size + 1
                &&& forall|k: int| 0 <= k < N && k != size ==> s2[k] == s[k]
                &&& r is None
            }
        }),
{
    broadcast use group_node;
    before.lemma_nodes_len();
    let s = before.spec_nodes();
    let size = before.spec_size();
    let n = size as int;
    lemma_find_from_hit(s, 0, n, key);
    lemma_get_after_put(s, size, (before.spec_time() + 1) as usize, key, value, written);
    let j = find_from(s, 0, n, key);
    let s2 = after.spec_nodes();
    if j < n {
        lemma_find_from_update(s, 0, n, key, j, s[j].rewritten(value, (before.spec_time() + 1) as usize, written));
    } else if size < N {
        lemma_find_from_none(s, 0, n, key);
        lemma_find_from_first(s2, 0, n + 1, key);
    } else {
        lemma_sort_by_use_len(s);
        assert(find_from(s2, 0, n, key) == 0);
    }
}

/// A store of a new key on a full cache gives up the least frequently used
/// slot, and among the slots used as rarely, the least recently used one:
/// no slot has fewer uses, and none with as many uses was last used
/// earlier. That slot is handed back, with its key, exactly when it was
/// marked as written; its key is no longer taken (when no key was taken
/// twice), and its slot now holds `key` and `value`, used once, now.
pub proof fn lemma_store_on_full_cache<K: Eq + PartialEq + Copy, V: Clone, const N: usize>(
    before: LFUCache<K, V, N>,
    after: LFUCache<K, V, N>,
    key: K,
    value: V,
    written: bool,
    r: Option<(K, V)>,
)
    requires
        LFUCache::<K, V, N>::store_result(before, after, key, value, written, r),
        before.spec_size() == N,
        N > 0,
        find_from(before.spec_nodes(), 0, N as int, key) == N,
        before.spec_time() < usize::MAX,
    ensures
        exists|m: int| #![trigger before.spec_nodes()[m]] 0 <= m < N && {
            let s = before.spec_nodes();
            let v = s[m];
            &&& forall|k: int| 0 <= k < N ==> v.spec_cnt() <= (#[trigger] s[k]).spec_cnt()
                && (v.spec_cnt() == s[k].spec_cnt() ==> v.spec_time() <= s[k].spec_time())
            &&& (r is Some) == v.spec_dirty()
            &&& r matches Some(wb) ==> wb.0 == v.spec_key() && cloned::<V>(v.spec_value(), wb.1)
            &&& keys_distinct(s, N as int) ==> find_from(after.spec_nodes(), 0, N as int, v.spec_key()) == N
        },
        after.spec_size() == N,
        find_from(after.spec_nodes(), 0, N as int, key) < N,
        after.spec_nodes()[find_from(after.spec_nodes(), 0, N as int, key)].spec_value() == value,
        after.spec_nodes()[find_from(after.spec_nodes(), 0, N as int, key)].spec_cnt() == 1,
        after.spec_nodes()[find_from(after.spec_nodes(), 0, N as int, key)].spec_time() == after.spec_time(),
{
    broadcast use group_node;
    before.lemma_nodes_len();
    let s = before.spec_nodes();
    let n = N as int;
    let t = (before.spec_time() + 1) as usize;
    lemma_sort_by_use_len(s);
    lemma_victim_least_used(s);
    let r0 = sort_by_use(s);
    let victim = r0[0];
    lemma_sort_by_use_member(s, 0);
    let m = choose|m: int| 0 <= m < s.len() && s[m] == victim;
    lemma_find_from_none(s, 0, n, key);
    let s2 = after.spec_nodes();
    assert(s2 == r0.update(0, victim.refilled(key, value, t, written)));
    assert(find_from(s2, 0, n, key) == 0);
    assert forall|k: int| 0 <= k < N implies victim.spec_cnt() <= (#[trigger] s[k]).spec_cnt()
        && (victim.spec_cnt() == s[k].spec_cnt() ==> victim.spec_time() <= s[k].spec_time()) by {
        assert(!evicted_after(victim, s[k]));
    }
    if keys_distinct(s, n) {
        lemma_sort_by_use_keys(s);
        assert forall|k: int| 0 <= k < n implies (#[trigger] s2[k]).spec_key() != victim.spec_key() by {
            if k == 0 {
                assert(s[m].spec_key() != key);
            } else {
                assert(s2[k] == r0[k]);
                assert(r0[0].spec_key() != r0[k].spec_key());
            }
        }
        lemma_find_from_absent(s2, 0, n, victim.spec_key());
    }
    assert(s[m] == victim);
}

/// A cache of `N` entries: look a key up, store a value under a key
/// (handing back an entry given up that must be written back), and list
/// the entries.
pub trait Cache<const N: usize> {
    type Key;
    type Value;

    /// Whether `get` and `put` of `key` may be called now.
    spec fn ready(&self, key: Self::Key) -> bool;

    fn get(&mut self, key: &Self::Key) -> Option<Self::Value>
        requires
            old(self).ready(*key),
    ;

    fn put(&mut self, key: &Self::Key, value: Self::Value) -> Option<(Self::Key, Self::Value)>
        requires
            old(self).ready(*key),
    ;

    fn all(&mut self) -> Vec<(Self::Key, Self::Value)>;
}

impl<K: Eq + PartialEq + Copy, V: Clone, const N: usize> Cache<N> for LFUCache<K, V, N> {
    type Key = K;
    type Value = V;

    open spec fn ready(&self, key: K) -> bool {
        &&& obeys_concrete_eq::<K>()
        &&& self.counters_fit(key)
        &&& N > 0
    }

    fn get(&mut self, key: &K) -> (r: Option<V>)
        ensures
            Self::get_result(*old(self), *final(self), *key, r),
    {
        LFUCache::get(self, key)
    }

    fn put(&mut self, key: &K, value: V) -> (r: Option<(K, V)>)
        ensures
            Self::store_result(*old(self), *final(self), *key, value, true, r),
    {
        LFUCache::put(self, key, value)
    }

    fn all(&mut self) -> (r: Vec<(K, V)>)
        ensures
            *final(self) == *old(self),
            Self::all_result(*old(self), r@),
    {
        LFUCache::all(self)
    }
}

} // verus!
