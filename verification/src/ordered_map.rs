//! A map whose keys are kept in order.

use vstd::prelude::*;
use vstd::utf8::*;

use crate::text::{
    lemma_bytes_before_irreflexive, lemma_bytes_before_transitive, lemma_text_before_total,
    text_before, text_eq, text_precedes, the_first_difference_decides,
};

verus! {

/// A key with a strict total order.
pub trait OrderedKey: View + Sized {
    /// The order, on what keys stand for.
    spec fn before(a: Self::V, b: Self::V) -> bool;

    proof fn irreflexive(a: Self::V)
        ensures
            !Self::before(a, a),
    ;

    proof fn transitive(a: Self::V, b: Self::V, c: Self::V)
        requires
            Self::before(a, b),
            Self::before(b, c),
        ensures
            Self::before(a, c),
    ;

    proof fn total(a: Self::V, b: Self::V)
        requires
            a != b,
        ensures
            Self::before(a, b) || Self::before(b, a),
    ;

    /// Whether this key comes before `other`.
    fn precedes(&self, other: &Self) -> (r: bool)
        ensures
            r == Self::before(self@, other@),
    ;
}

impl OrderedKey for u32 {
    open spec fn before(a: u32, b: u32) -> bool {
        a < b
    }

    proof fn irreflexive(a: u32) {
    }

    proof fn transitive(a: u32, b: u32, c: u32) {
    }

    proof fn total(a: u32, b: u32) {
    }

    fn precedes(&self, other: &Self) -> (r: bool) {
        *self < *other
    }
}

impl OrderedKey for i32 {
    open spec fn before(a: i32, b: i32) -> bool {
        a < b
    }

    proof fn irreflexive(a: i32) {
    }

    proof fn transitive(a: i32, b: i32, c: i32) {
    }

    proof fn total(a: i32, b: i32) {
    }

    fn precedes(&self, other: &Self) -> (r: bool) {
        *self < *other
    }
}

impl OrderedKey for i64 {
    open spec fn before(a: i64, b: i64) -> bool {
        a < b
    }

    proof fn irreflexive(a: i64) {
    }

    proof fn transitive(a: i64, b: i64, c: i64) {
    }

    proof fn total(a: i64, b: i64) {
    }

    fn precedes(&self, other: &Self) -> (r: bool) {
        *self < *other
    }
}

impl OrderedKey for String {
    open spec fn before(a: Seq<char>, b: Seq<char>) -> bool {
        text_before(a, b)
    }

    proof fn irreflexive(a: Seq<char>) {
        lemma_bytes_before_irreflexive(encode_utf8(a));
    }

    proof fn transitive(a: Seq<char>, b: Seq<char>, c: Seq<char>) {
        lemma_bytes_before_transitive(encode_utf8(a), encode_utf8(b), encode_utf8(c));
    }

    proof fn total(a: Seq<char>, b: Seq<char>) {
        lemma_text_before_total(a, b);
    }

    fn precedes(&self, other: &Self) -> (r: bool) {
        text_precedes(self.as_str(), other.as_str())
    }
}

/// A text and a number, by the text first.
impl OrderedKey for (String, i32) {
    open spec fn before(a: (Seq<char>, i32), b: (Seq<char>, i32)) -> bool {
        text_before(a.0, b.0) || (a.0 == b.0 && a.1 < b.1)
    }

    proof fn irreflexive(a: (Seq<char>, i32)) {
        lemma_bytes_before_irreflexive(encode_utf8(a.0));
    }

    proof fn transitive(a: (Seq<char>, i32), b: (Seq<char>, i32), c: (Seq<char>, i32)) {
        if text_before(a.0, b.0) && text_before(b.0, c.0) {
            lemma_bytes_before_transitive(encode_utf8(a.0), encode_utf8(b.0), encode_utf8(c.0));
        }
    }

    proof fn total(a: (Seq<char>, i32), b: (Seq<char>, i32)) {
        if a.0 != b.0 {
            lemma_text_before_total(a.0, b.0);
        }
    }

    fn precedes(&self, other: &Self) -> (r: bool) {
        text_precedes(self.0.as_str(), other.0.as_str()) || (text_eq(
            self.0.as_str(),
            other.0.as_str(),
        ) && self.1 < other.1)
    }
}

/// Entries in strictly ascending order of their keys.
pub open spec fn ascending<K: OrderedKey, V>(entries: Seq<(K, V)>) -> bool {
    forall|i: int, j: int|
        #![trigger entries[i], entries[j]]
        0 <= i < j < entries.len() ==> K::before(entries[i].0@, entries[j].0@)
}

/// Whether some entry has the key `k`.
pub open spec fn has_key<K: OrderedKey, V>(entries: Seq<(K, V)>, k: K::V) -> bool {
    exists|i: int| 0 <= i < entries.len() && (#[trigger] entries[i]).0@ == k
}

/// The value of the entry with the key `k`.
pub open spec fn value_of_key<K: OrderedKey, V>(entries: Seq<(K, V)>, k: K::V) -> V {
    entries[choose|i: int| 0 <= i < entries.len() && (#[trigger] entries[i]).0@ == k].1
}

/// The map that a row of entries stands for.
pub open spec fn map_of<K: OrderedKey, V>(entries: Seq<(K, V)>) -> Map<K::V, V> {
    Map::new(|k: K::V| has_key(entries, k), |k: K::V| value_of_key(entries, k))
}

/// Whether a row lists the elements of a set, in ascending order.
pub open spec fn lists<K: OrderedKey>(row: Seq<K::V>, set: Set<K::V>) -> bool {
    &&& forall|i: int, j: int|
        0 <= i < j < row.len() ==> K::before(#[trigger] row[i], #[trigger] row[j])
    &&& forall|k: K::V| set.contains(k) <==> row.contains(k)
}

/// The elements of a set in ascending order.
pub open spec fn listed<K: OrderedKey>(set: Set<K::V>) -> Seq<K::V> {
    choose|row: Seq<K::V>| lists::<K>(row, set)
}

/// A set is listed in ascending order in one way only.
pub proof fn listing_is_unique<K: OrderedKey>(a: Seq<K::V>, b: Seq<K::V>, set: Set<K::V>)
    requires
        lists::<K>(a, set),
        lists::<K>(b, set),
    ensures
        a == b,
    decreases a.len(),
{
    if a.len() == 0 {
        if b.len() > 0 {
            assert(b.contains(b[0]));
            assert(a.contains(b[0]));
        }
        assert(a =~= b);
    } else {
        assert(a.contains(a.last()));
        let i = choose|i: int| 0 <= i < b.len() && b[i] == a.last();
        assert(b.contains(b.last()));
        let j = choose|j: int| 0 <= j < a.len() && a[j] == b.last();
        if i < b.len() - 1 {
            assert(K::before(b[i], b[b.len() - 1]));
            if j < a.len() - 1 {
                assert(K::before(a[j], a[a.len() - 1]));
                K::transitive(a.last(), b.last(), a.last());
            }
            K::irreflexive(a.last());
        }
        let last = a.last();
        assert(b.last() == last);
        let c = a.drop_last();
        let d = b.drop_last();
        let rest = set.remove(last);
        assert forall|k: K::V| rest.contains(k) <==> c.contains(k) by {
            lemma_all_but_last::<K>(a, set, k);
        }
        assert forall|k: K::V| rest.contains(k) <==> d.contains(k) by {
            lemma_all_but_last::<K>(b, set, k);
        }
        listing_is_unique::<K>(c, d, rest);
        assert(a =~= c.push(last));
        assert(b =~= d.push(last));
    }
}

proof fn lemma_all_but_last<K: OrderedKey>(a: Seq<K::V>, set: Set<K::V>, k: K::V)
    requires
        lists::<K>(a, set),
        a.len() > 0,
    ensures
        set.remove(a.last()).contains(k) <==> a.drop_last().contains(k),
{
    let c = a.drop_last();
    if c.contains(k) {
        let i = choose|i: int| 0 <= i < c.len() && c[i] == k;
        assert(a[i] == k);
        assert(K::before(a[i], a[a.len() - 1]));
        K::irreflexive(k);
        assert(a.contains(k));
    }
    if set.remove(a.last()).contains(k) {
        assert(a.contains(k));
        let i = choose|i: int| 0 <= i < a.len() && a[i] == k;
        assert(c[i] == k);
    }
}

/// The last of the elements of a finite set.
proof fn lemma_last_of<K: OrderedKey>(set: Set<K::V>) -> (last: K::V)
    requires
        set.finite(),
        set.len() > 0,
    ensures
        set.contains(last),
        forall|k: K::V| set.contains(k) && k != last ==> K::before(k, last),
    decreases set.len(),
{
    let x = set.choose();
    let rest = set.remove(x);
    if rest.len() == 0 {
        assert forall|k: K::V| set.contains(k) && k != x implies K::before(k, x) by {
            assert(rest.contains(k));
        }
        x
    } else {
        let m = lemma_last_of::<K>(rest);
        K::total(m, x);
        if K::before(m, x) {
            assert forall|k: K::V| set.contains(k) && k != x implies K::before(k, x) by {
                assert(rest.contains(k));
                if k != m {
                    K::transitive(k, m, x);
                }
            }
            x
        } else {
            assert forall|k: K::V| set.contains(k) && k != m implies K::before(k, m) by {
                if k != x {
                    assert(rest.contains(k));
                }
            }
            m
        }
    }
}

proof fn lemma_some_listing<K: OrderedKey>(set: Set<K::V>) -> (row: Seq<K::V>)
    requires
        set.finite(),
    ensures
        lists::<K>(row, set),
    decreases set.len(),
{
    if set.len() == 0 {
        let row = Seq::<K::V>::empty();
        assert(set =~= Set::empty());
        row
    } else {
        let last = lemma_last_of::<K>(set);
        let before = lemma_some_listing::<K>(set.remove(last));
        let row = before.push(last);
        assert forall|k: K::V| set.contains(k) <==> row.contains(k) by {
            if k == last {
                assert(row[before.len() as int] == last);
            } else if set.contains(k) {
                assert(before.contains(k));
                let i = choose|i: int| 0 <= i < before.len() && before[i] == k;
                assert(row[i] == k);
            }
            if row.contains(k) && k != last {
                let i = choose|i: int| 0 <= i < row.len() && row[i] == k;
                assert(before[i] == k);
                assert(before.contains(k));
            }
        }
        assert forall|i: int, j: int| 0 <= i < j < row.len() implies K::before(
            #[trigger] row[i],
            #[trigger] row[j],
        ) by {
            if j == before.len() {
                assert(before.contains(before[i]));
            }
        }
        row
    }
}

/// A finite set can be listed in ascending order.
pub proof fn finite_sets_are_listed<K: OrderedKey>(set: Set<K::V>)
    requires
        set.finite(),
    ensures
        lists::<K>(listed::<K>(set), set),
{
    let row = lemma_some_listing::<K>(set);
    assert(lists::<K>(row, set));
}

/// A finite set is listed with each of its elements once.
pub proof fn a_listing_has_each_element_once<K: OrderedKey>(set: Set<K::V>)
    requires
        set.finite(),
    ensures
        listed::<K>(set).no_duplicates(),
        listed::<K>(set).len() == set.len(),
        forall|k: K::V| set.contains(k) <==> #[trigger] listed::<K>(set).contains(k),
{
    let row = listed::<K>(set);
    finite_sets_are_listed::<K>(set);
    assert forall|i: int, j: int| 0 <= i < row.len() && 0 <= j < row.len() && i != j implies row[i]
        != row[j] by {
        if i < j {
            assert(K::before(row[i], row[j]));
        } else {
            assert(K::before(row[j], row[i]));
        }
        K::irreflexive(row[i]);
    }
    row.unique_seq_to_set();
    assert(row.to_set() =~= set);
}

/// A finite set is listed in ascending order.
pub proof fn a_listing_ascends<K: OrderedKey>(set: Set<K::V>, i: int, j: int)
    requires
        set.finite(),
        0 <= i < j < listed::<K>(set).len(),
    ensures
        K::before(listed::<K>(set)[i], listed::<K>(set)[j]),
{
    finite_sets_are_listed::<K>(set);
}

/// Numbers come in the order of numbers, texts in that of their bytes, and
/// pairs in that of their texts first and of their numbers where the texts
/// are the same.
pub proof fn keys_come_in_their_order(
    a: (Seq<char>, i32),
    b: (Seq<char>, i32),
    front: Seq<u8>,
    x: i64,
    y: i64,
    m: u32,
    n: u32,
)
    ensures
        <i64 as OrderedKey>::before(x, y) <==> x < y,
        <u32 as OrderedKey>::before(m, n) <==> m < n,
        <i32 as OrderedKey>::before(a.1, b.1) <==> a.1 < b.1,
        ({
            let p = encode_utf8(a.0);
            let q = encode_utf8(b.0);
            let k = front.len() as int;
            p.len() >= k && q.len() > k && p.take(k) == front && q.take(k) == front && (p.len()
                == k || p[k] < q[k]) ==> {
                &&& <String as OrderedKey>::before(a.0, b.0)
                &&& <(String, i32) as OrderedKey>::before(a, b)
            }
        }),
        a.0 == b.0 ==> (<(String, i32) as OrderedKey>::before(a, b) <==> a.1 < b.1),
{
    let p = encode_utf8(a.0);
    let q = encode_utf8(b.0);
    let k = front.len() as int;
    if p.len() >= k && q.len() > k && p.take(k) == front && q.take(k) == front && (p.len() == k
        || p[k] < q[k]) {
        the_first_difference_decides(front, p.skip(k), q.skip(k));
        assert(front + p.skip(k) =~= p);
        assert(front + q.skip(k) =~= q);
    }
    lemma_bytes_before_irreflexive(p);
}

/// A map whose keys are kept in ascending order.
pub struct OrderedMap<K: OrderedKey, V> {
    pub(crate) entries: Vec<(K, V)>,
}

/// In ascending order no key stands twice.
pub proof fn lemma_ascending_distinct<K: OrderedKey, V>(entries: Seq<(K, V)>, i: int, j: int)
    requires
        ascending(entries),
        0 <= i < entries.len(),
        0 <= j < entries.len(),
        entries[i].0@ == entries[j].0@,
    ensures
        i == j,
{
    K::irreflexive(entries[i].0@);
    if i < j {
        assert(K::before(entries[i].0@, entries[j].0@));
    }
    if j < i {
        assert(K::before(entries[j].0@, entries[i].0@));
    }
}

/// The entry at a position is what the map holds under its key.
pub proof fn lemma_entry_in_map<K: OrderedKey, V>(entries: Seq<(K, V)>, i: int)
    requires
        ascending(entries),
        0 <= i < entries.len(),
    ensures
        map_of(entries).dom().contains(entries[i].0@),
        map_of(entries)[entries[i].0@] == entries[i].1,
{
    let k = entries[i].0@;
    assert(has_key(entries, k));
    let j = choose|j: int| 0 <= j < entries.len() && (#[trigger] entries[j]).0@ == k;
    lemma_ascending_distinct(entries, i, j);
}

impl<K: OrderedKey, V> View for OrderedMap<K, V> {
    type V = Map<K::V, V>;

    closed spec fn view(&self) -> Map<K::V, V> {
        map_of(self.entries@)
    }
}

pub(crate) proof fn lemma_insides<K: OrderedKey, V>(m: &OrderedMap<K, V>)
    ensures
        m@ == map_of(m.entries@),
        m.in_order() == ascending(m.entries@),
        m.keys() == m.entries@.map_values(|e: (K, V)| e.0@),
        m.values() == m.entries@.map_values(|e: (K, V)| e.1),
{
}

impl<K: OrderedKey, V> OrderedMap<K, V> {
    #[verifier::type_invariant]
    pub(crate) closed spec fn in_order(self) -> bool {
        ascending(self.entries@)
    }

    /// The keys, in order.
    pub closed spec fn keys(&self) -> Seq<K::V> {
        self.entries@.map_values(|e: (K, V)| e.0@)
    }

    /// The values, in the order of their keys.
    pub closed spec fn values(&self) -> Seq<V> {
        self.entries@.map_values(|e: (K, V)| e.1)
    }

    /// A map that holds nothing.
    pub fn new() -> (r: Self)
        ensures
            r@ == Map::<K::V, V>::empty(),
            r.keys() == Seq::<K::V>::empty(),
            r.values() == Seq::<V>::empty(),
    {
        let r = OrderedMap { entries: Vec::new() };
        assert(r@ =~= Map::<K::V, V>::empty());
        assert(r.keys() =~= Seq::<K::V>::empty());
        assert(r.values() =~= Seq::<V>::empty());
        r
    }

    /// How many keys there are. The keys are exactly those of the map, each
    /// once and in ascending order, and each value stands at the place of its
    /// key.
    pub fn len(&self) -> (n: usize)
        ensures
            n == self.keys().len(),
            self@.dom().finite(),
            n == self@.dom().len(),
            self.keys().no_duplicates(),
            self.keys().len() == self.values().len(),
            forall|k: K::V| self@.dom().contains(k) <==> self.keys().contains(k),
            forall|i: int|
                0 <= i < self.keys().len() ==> self@[#[trigger] self.keys()[i]]
                    == self.values()[i],
            forall|i: int, j: int|
                0 <= i < j < self.keys().len() ==> K::before(
                    #[trigger] self.keys()[i],
                    #[trigger] self.keys()[j],
                ),
            self.keys() == listed::<K>(self@.dom()),
    {
        proof {
            use_type_invariant(self);
            assert forall|k: K::V| self@.dom().contains(k) implies self.keys().contains(k) by {
                let i = choose|i: int|
                    0 <= i < self.entries@.len() && (#[trigger] self.entries@[i]).0@ == k;
                assert(self.keys()[i] == k);
            }
            assert forall|k: K::V| self.keys().contains(k) implies self@.dom().contains(k) by {
                let i = choose|i: int| 0 <= i < self.keys().len() && self.keys()[i] == k;
                assert(self.entries@[i].0@ == k);
            }
            assert forall|i: int| 0 <= i < self.keys().len() implies self@[
                #[trigger] self.keys()[i]
            ] == self.values()[i] by {
                lemma_entry_in_map(self.entries@, i);
            }
            assert(self.keys().no_duplicates()) by {
                assert forall|i: int, j: int|
                    0 <= i < self.keys().len() && 0 <= j < self.keys().len() && i
                        != j implies self.keys()[i] != self.keys()[j] by {
                    if self.keys()[i] == self.keys()[j] {
                        lemma_ascending_distinct(self.entries@, i, j);
                    }
                }
            }
            self.keys().unique_seq_to_set();
            assert(self.keys().to_set() =~= self@.dom());
            assert(lists::<K>(self.keys(), self@.dom()));
            listing_is_unique::<K>(self.keys(), listed::<K>(self@.dom()), self@.dom());
        }
        self.entries.len()
    }

    /// The key at a position.
    pub fn key_at(&self, i: usize) -> (k: &K)
        requires
            i < self.keys().len(),
        ensures
            k@ == self.keys()[i as int],
            self@.dom().contains(k@),
            self@[k@] == self.values()[i as int],
    {
        proof {
            use_type_invariant(self);
            lemma_entry_in_map(self.entries@, i as int);
        }
        &self.entries[i].0
    }

    /// The value at a position.
    pub fn value_at(&self, i: usize) -> (v: &V)
        requires
            i < self.keys().len(),
        ensures
            *v == self.values()[i as int],
            self@.dom().contains(self.keys()[i as int]),
            self@[self.keys()[i as int]] == *v,
    {
        proof {
            use_type_invariant(self);
            lemma_entry_in_map(self.entries@, i as int);
        }
        &self.entries[i].1
    }

    /// The position of a key: where it is, or where it belongs.
    fn find(&self, key: &K) -> (r: (usize, bool))
        ensures
            r.0 <= self.entries@.len(),
            r.1 ==> r.0 < self.entries@.len() && self.entries@[r.0 as int].0@ == key@,
            r.1 == has_key(self.entries@, key@),
            !r.1 ==> (forall|i: int|
                0 <= i < r.0 ==> K::before((#[trigger] self.entries@[i]).0@, key@)),
            !r.1 ==> (forall|i: int|
                r.0 <= i < self.entries@.len() ==> K::before(
                    key@,
                    (#[trigger] self.entries@[i]).0@,
                )),
    {
        proof {
            use_type_invariant(self);
        }
        let mut lo: usize = 0;
        let mut hi: usize = self.entries.len();
        while lo < hi
            invariant
                ascending(self.entries@),
                lo <= hi <= self.entries@.len(),
                forall|i: int| 0 <= i < lo ==> K::before((#[trigger] self.entries@[i]).0@, key@),
                forall|i: int|
                    hi <= i < self.entries@.len() ==> K::before(
                        key@,
                        (#[trigger] self.entries@[i]).0@,
                    ),
            decreases hi - lo,
        {
            let mid: usize = lo + (hi - lo) / 2;
            let ghost m = self.entries@[mid as int].0@;
            if self.entries[mid].0.precedes(key) {
                assert forall|i: int| 0 <= i < mid + 1 implies K::before(
                    (#[trigger] self.entries@[i]).0@,
                    key@,
                ) by {
                    if i < mid {
                        K::transitive(self.entries@[i].0@, m, key@);
                    }
                }
                lo = mid + 1;
            } else if key.precedes(&self.entries[mid].0) {
                assert forall|i: int| mid <= i < self.entries@.len() implies K::before(
                    key@,
                    (#[trigger] self.entries@[i]).0@,
                ) by {
                    if mid < i {
                        K::transitive(key@, m, self.entries@[i].0@);
                    }
                }
                hi = mid;
            } else {
                proof {
                    if m != key@ {
                        K::total(m, key@);
                    }
                }
                return (mid, true);
            }
        }
        proof {
            if has_key(self.entries@, key@) {
                let i = choose|i: int|
                    0 <= i < self.entries@.len() && (#[trigger] self.entries@[i]).0@ == key@;
                K::irreflexive(key@);
            }
        }
        (lo, false)
    }

    /// What the map holds under a key.
    pub fn get(&self, key: &K) -> (r: Option<&V>)
        ensures
            match r {
                Some(v) => self@.dom().contains(key@) && self@[key@] == *v,
                None => !self@.dom().contains(key@),
            },
    {
        let (i, found) = self.find(key);
        if found {
            proof {
                use_type_invariant(self);
                lemma_entry_in_map(self.entries@, i as int);
            }
            Some(&self.entries[i].1)
        } else {
            None
        }
    }

    /// Puts a value under a key, and hands back the one that was there.
    pub fn insert(&mut self, key: K, value: V) -> (r: Option<V>)
        ensures
            final(self)@ == old(self)@.insert(key@, value),
            match r {
                Some(v) => old(self)@.dom().contains(key@) && old(self)@[key@] == v,
                None => !old(self)@.dom().contains(key@),
            },
    {
        let (i, found) = self.find(&key);
        proof {
            use_type_invariant(&*self);
        }
        let ghost before = self.entries@;
        let mut entries: Vec<(K, V)> = Vec::new();
        std::mem::swap(&mut entries, &mut self.entries);
        let r = if found {
            let was = entries.remove(i);
            proof {
                lemma_entry_in_map(before, i as int);
            }
            Some(was.1)
        } else {
            None
        };
        let ghost k = key@;
        let ghost new_entry = (key, value);
        entries.insert(i, (key, value));
        proof {
            let after = entries@;
            if found {
                assert(after =~= before.update(i as int, new_entry));
            } else {
                assert(after =~= before.insert(i as int, new_entry));
                assert(forall|j: int| 0 <= j < i ==> after[j] == before[j]);
                assert(forall|j: int| i < j < after.len() ==> after[j] == before[j - 1]);
            }
            assert(after[i as int] == new_entry);
            assert(ascending(after));
            assert(map_of(after) =~= map_of(before).insert(k, value)) by {
                assert forall|q: K::V| has_key(after, q) <==> (has_key(before, q) || q == k) by {
                    if has_key(after, q) {
                        let j = choose|j: int|
                            0 <= j < after.len() && (#[trigger] after[j]).0@ == q;
                        if j != i {
                            let p = if found || j < i {
                                j
                            } else {
                                j - 1
                            };
                            assert(before[p] == after[j]);
                        }
                    }
                    if has_key(before, q) {
                        let j = choose|j: int|
                            0 <= j < before.len() && (#[trigger] before[j]).0@ == q;
                        let p = if found || j < i {
                            j
                        } else {
                            j + 1
                        };
                        assert(after[p].0@ == q);
                    }
                    if q == k {
                        assert(after[i as int].0@ == q);
                    }
                }
                assert forall|q: K::V| has_key(after, q) implies #[trigger] map_of(after)[q]
                    == map_of(before).insert(k, value)[q] by {
                    let j = choose|j: int| 0 <= j < after.len() && (#[trigger] after[j]).0@ == q;
                    lemma_entry_in_map(after, j);
                    lemma_entry_in_map(after, i as int);
                    if q != k {
                        let p = if found || j < i {
                            j
                        } else {
                            j - 1
                        };
                        assert(before[p] == after[j]);
                        lemma_entry_in_map(before, p);
                    }
                }
            }
        }
        self.entries = entries;
        r
    }

    /// Takes a key out of the map, and hands back its value.
    pub fn remove(&mut self, key: &K) -> (r: Option<V>)
        ensures
            final(self)@ == old(self)@.remove(key@),
            match r {
                Some(v) => old(self)@.dom().contains(key@) && old(self)@[key@] == v,
                None => !old(self)@.dom().contains(key@),
            },
    {
        let (i, found) = self.find(key);
        proof {
            use_type_invariant(&*self);
        }
        let ghost before = self.entries@;
        if !found {
            assert(map_of(before).remove(key@) =~= map_of(before));
            return None;
        }
        let mut entries: Vec<(K, V)> = Vec::new();
        std::mem::swap(&mut entries, &mut self.entries);
        let was = entries.remove(i);
        proof {
            let after = entries@;
            let k = key@;
            lemma_entry_in_map(before, i as int);
            assert(after =~= before.remove(i as int));
            assert(forall|j: int| 0 <= j < i ==> after[j] == before[j]);
            assert(forall|j: int| i <= j < after.len() ==> after[j] == before[j + 1]);
            assert(ascending(after));
            assert(map_of(after) =~= map_of(before).remove(k)) by {
                assert forall|q: K::V| has_key(after, q) <==> (has_key(before, q) && q != k) by {
                    if has_key(after, q) {
                        let j = choose|j: int|
                            0 <= j < after.len() && (#[trigger] after[j]).0@ == q;
                        let p = if j < i {
                            j
                        } else {
                            j + 1
                        };
                        assert(before[p] == after[j]);
                        if q == k {
                            lemma_ascending_distinct(before, p, i as int);
                        }
                    }
                    if has_key(before, q) && q != k {
                        let j = choose|j: int|
                            0 <= j < before.len() && (#[trigger] before[j]).0@ == q;
                        let p = if j < i {
                            j
                        } else {
                            j - 1
                        };
                        assert(after[p].0@ == q);
                    }
                }
                assert forall|q: K::V| has_key(after, q) implies #[trigger] map_of(after)[q]
                    == map_of(before)[q] by {
                    let j = choose|j: int| 0 <= j < after.len() && (#[trigger] after[j]).0@ == q;
                    let p = if j < i {
                        j
                    } else {
                        j + 1
                    };
                    assert(before[p] == after[j]);
                    lemma_entry_in_map(after, j);
                    lemma_entry_in_map(before, p);
                }
            }
        }
        self.entries = entries;
        Some(was.1)
    }

    /// Takes out every key before `key`.
    pub fn drop_before(&mut self, key: &K)
        ensures
            final(self)@ == old(self)@.restrict(Set::new(|k: K::V| !K::before(k, key@))),
    {
        let (i, found) = self.find(key);
        proof {
            use_type_invariant(&*self);
        }
        let ghost before = self.entries@;
        let mut entries: Vec<(K, V)> = Vec::new();
        std::mem::swap(&mut entries, &mut self.entries);
        let kept = entries.split_off(i);
        proof {
            let after = kept@;
            assert(after =~= before.skip(i as int));
            assert(forall|j: int| 0 <= j < after.len() ==> after[j] == before[j + i]);
            assert(ascending(after));
            let stays = Set::new(|k: K::V| !K::before(k, key@));
            assert forall|j: int| 0 <= j < before.len() implies (stays.contains(
                (#[trigger] before[j]).0@,
            ) <==> j >= i) by {
                K::irreflexive(key@);
                if found {
                    if j < i {
                        assert(K::before(before[j].0@, before[i as int].0@));
                    }
                    if j > i {
                        assert(K::before(before[i as int].0@, before[j].0@));
                    }
                }
                if K::before(before[j].0@, key@) && K::before(key@, before[j].0@) {
                    K::transitive(key@, before[j].0@, key@);
                }
            }
            let m = map_of(before).restrict(stays);
            assert(map_of(after) =~= m) by {
                assert forall|q: K::V| has_key(after, q) <==> (has_key(before, q)
                    && stays.contains(q)) by {
                    if has_key(after, q) {
                        let j = choose|j: int|
                            0 <= j < after.len() && (#[trigger] after[j]).0@ == q;
                        assert(before[j + i].0@ == q);
                    }
                    if has_key(before, q) && stays.contains(q) {
                        let j = choose|j: int|
                            0 <= j < before.len() && (#[trigger] before[j]).0@ == q;
                        assert(after[j - i].0@ == q);
                    }
                }
                assert forall|q: K::V| has_key(after, q) implies #[trigger] map_of(after)[q]
                    == map_of(before)[q] by {
                    let j = choose|j: int| 0 <= j < after.len() && (#[trigger] after[j]).0@ == q;
                    assert(before[j + i] == after[j]);
                    lemma_entry_in_map(after, j);
                    lemma_entry_in_map(before, j + i);
                }
            }
        }
        self.entries = kept;
    }
}

} // verus!
