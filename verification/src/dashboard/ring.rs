//! Counts per minute and per second, and the latest samples of a number.

use std::collections::VecDeque;

use vstd::prelude::*;

use crate::clock::{is_clock_reading, now_ms};
use crate::ordered_map::OrderedMap;
use crate::stats::{ascending, rank, sorted_copy};

verus! {

/// How many minutes a ring reaches back: four hours.
pub const MINUTES_KEPT: i64 = 240;

/// How many seconds a ring reaches back: two minutes.
pub const SECONDS_KEPT: i64 = 120;

/// How many samples are kept.
pub const SAMPLES_KEPT: usize = 200;

/// Division towards zero.
pub open spec fn toward_zero(x: int, d: int) -> int {
    if x >= 0 {
        x / d
    } else {
        -((-x) / d)
    }
}

fn div_toward_zero(x: i64, d: i64) -> (r: i64)
    requires
        d > 0,
    ensures
        r == toward_zero(x as int, d as int),
{
    if x >= 0 {
        x / d
    } else {
        let y: i128 = -(x as i128);
        let q: i128 = y / d as i128;
        assert(0 <= q <= y) by (nonlinear_arith)
            requires
                q == y / d as i128,
                y > 0,
                d > 0,
        ;
        (-q) as i64
    }
}

/// The count under a key, zero where there is none.
pub open spec fn count_at(m: Map<i64, u64>, k: int) -> u64 {
    if i64::MIN <= k <= i64::MAX && m.dom().contains(k as i64) {
        m[k as i64]
    } else {
        0
    }
}

/// The counts with `n` more under a key. Counts wrap at 64 bits.
pub open spec fn counted(m: Map<i64, u64>, k: i64, n: u64) -> Map<i64, u64> {
    m.insert(k, count_at(m, k as int).wrapping_add(n))
}

/// The counts without those under keys below `oldest`.
pub open spec fn recent(m: Map<i64, u64>, oldest: int) -> Map<i64, u64> {
    m.restrict(Set::new(|k: i64| k >= oldest))
}

/// Counts of records per minute and per second.
pub struct Ring {
    pub per_min: OrderedMap<i64, u64>,
    pub per_sec: OrderedMap<i64, u64>,
}

/// What a ring stands for.
#[verifier::ext_equal]
pub struct RingView {
    pub per_min: Map<i64, u64>,
    pub per_sec: Map<i64, u64>,
}

impl View for Ring {
    type V = RingView;

    open spec fn view(&self) -> RingView {
        RingView { per_min: self.per_min@, per_sec: self.per_sec@ }
    }
}

/// A ring without counts.
pub open spec fn empty_ring() -> RingView {
    RingView { per_min: Map::empty(), per_sec: Map::empty() }
}

/// The ring with `n` records counted at `ts`, as it is kept at `now`.
pub open spec fn ring_added(r: RingView, ts: i64, n: u64, now: i64) -> RingView {
    RingView {
        per_min: recent(
            counted(r.per_min, toward_zero(ts as int, 60_000) as i64, n),
            toward_zero(now as int, 60_000) - MINUTES_KEPT,
        ),
        per_sec: recent(
            counted(r.per_sec, toward_zero(ts as int, 1_000) as i64, n),
            toward_zero(now as int, 1_000) - SECONDS_KEPT,
        ),
    }
}

fn count_and_keep(m: &mut OrderedMap<i64, u64>, k: i64, n: u64, oldest: i64)
    ensures
        final(m)@ == recent(counted(old(m)@, k, n), oldest as int),
{
    let was: u64 = match m.get(&k) {
        Some(c) => *c,
        None => 0,
    };
    m.insert(k, was.wrapping_add(n));
    m.drop_before(&oldest);
    assert(m@ =~= recent(counted(old(m)@, k, n), oldest as int));
}

/// How many records the seconds from `lo` to `hi` count.
pub open spec fn count_between(m: Map<i64, u64>, lo: int, hi: int) -> u64
    decreases hi - lo + 1,
{
    if hi < lo {
        0
    } else {
        count_between(m, lo, hi - 1).wrapping_add(count_at(m, hi))
    }
}

impl Ring {
    /// A ring without counts.
    pub fn new() -> (r: Ring)
        ensures
            r@ == empty_ring(),
    {
        Ring { per_min: OrderedMap::new(), per_sec: OrderedMap::new() }
    }

    /// Counts `n` records at `ts`, and lets go of what is too old at `now`.
    pub fn add_at(&mut self, ts: i64, n: u64, now: i64)
        ensures
            final(self)@ == ring_added(old(self)@, ts, n, now),
    {
        let minute = div_toward_zero(ts, 60_000);
        let now_min = div_toward_zero(now, 60_000);
        count_and_keep(&mut self.per_min, minute, n, now_min - MINUTES_KEPT);
        let second = div_toward_zero(ts, 1_000);
        let now_sec = div_toward_zero(now, 1_000);
        count_and_keep(&mut self.per_sec, second, n, now_sec - SECONDS_KEPT);
    }

    /// Counts `n` records at `ts`, and lets go of what is too old by the
    /// clock.
    pub fn add(&mut self, ts: i64, n: u64)
        ensures
            exists|now: i64|
                #![trigger is_clock_reading(now)]
                is_clock_reading(now) && final(self)@ == ring_added(old(self)@, ts, n, now),
    {
        let now = now_ms();
        self.add_at(ts, n, now);
        assert(is_clock_reading(now));
    }

    /// How many records were counted over the last `secs` seconds, of which
    /// the second of `now` is the last.
    pub fn count_over(&self, secs: i64, now: i64) -> (n: u64)
        requires
            0 <= secs,
            i64::MIN <= toward_zero(now as int, 1_000) - secs,
        ensures
            n == count_between(
                self@.per_sec,
                toward_zero(now as int, 1_000) - secs + 1,
                toward_zero(now as int, 1_000),
            ),
    {
        let hi = div_toward_zero(now, 1_000);
        let lo = hi - secs + 1;
        let mut sum: u64 = 0;
        let mut k = lo;
        while k <= hi
            invariant
                lo <= k <= hi + 1,
                hi < i64::MAX,
                sum == count_between(self@.per_sec, lo as int, k - 1),
            decreases hi + 1 - k,
        {
            let c: u64 = match self.per_sec.get(&k) {
                Some(c) => *c,
                None => 0,
            };
            sum = sum.wrapping_add(c);
            k = k + 1;
        }
        sum
    }

    /// The counts of the last `n` minutes up to `now`, the oldest first.
    pub fn minutes_at(&self, n: i64, now: i64) -> (r: Vec<u64>)
        requires
            i64::MIN <= toward_zero(now as int, 60_000) - n,
        ensures
            n <= 0 ==> r@.len() == 0,
            n > 0 ==> r@ == Seq::new(
                n as nat,
                |i: int|
                    count_at(self@.per_min, toward_zero(now as int, 60_000) - (n - 1 - i)),
            ),
    {
        let minute = div_toward_zero(now, 60_000);
        let mut r: Vec<u64> = Vec::new();
        let mut left: i64 = n;
        while left > 0
            invariant
                minute == toward_zero(now as int, 60_000),
                i64::MIN <= minute - n,
                n > 0 ==> 0 <= left <= n,
                n <= 0 ==> left == n && r@.len() == 0,
                n > 0 ==> r@.len() == n - left,
                forall|i: int|
                    0 <= i < r@.len() ==> r@[i] == count_at(self@.per_min, minute - (n - 1 - i)),
            decreases left,
        {
            left = left - 1;
            let c: u64 = match self.per_min.get(&(minute - left)) {
                Some(c) => *c,
                None => 0,
            };
            r.push(c);
        }
        r
    }

    /// The counts of the last `n` minutes by the clock, the oldest first.
    pub fn minutes(&self, n: i64) -> (r: Vec<u64>)
        requires
            n <= 0x7fff_0000_0000_0000,
        ensures
            r@.len() == if n > 0 { n as int } else { 0 },
            exists|now: i64|
                #![trigger is_clock_reading(now)]
                is_clock_reading(now) && forall|i: int|
                    0 <= i < n ==> r@[i] == count_at(
                        self@.per_min,
                        toward_zero(now as int, 60_000) - (n - 1 - i),
                    ),
    {
        let now = now_ms();
        let r = self.minutes_at(n, now);
        assert(is_clock_reading(now));
        r
    }
}

/// After a count nothing older than four hours, or two minutes, is left.
pub proof fn ring_forgets(r: RingView, ts: i64, n: u64, now: i64)
    ensures
        forall|k: i64|
            ring_added(r, ts, n, now).per_min.dom().contains(k) ==> k >= toward_zero(
                now as int,
                60_000,
            ) - MINUTES_KEPT,
        forall|k: i64|
            ring_added(r, ts, n, now).per_sec.dom().contains(k) ==> k >= toward_zero(
                now as int,
                1_000,
            ) - SECONDS_KEPT,
{
}

/// A count that is not too old adds to its own minute and second, and to no
/// other.
pub proof fn ring_counts(r: RingView, ts: i64, n: u64, now: i64, k: i64)
    ensures
        k >= toward_zero(now as int, 60_000) - MINUTES_KEPT ==> count_at(
            ring_added(r, ts, n, now).per_min,
            k as int,
        ) == if k == toward_zero(ts as int, 60_000) {
            count_at(r.per_min, k as int).wrapping_add(n)
        } else {
            count_at(r.per_min, k as int)
        },
        k >= toward_zero(now as int, 1_000) - SECONDS_KEPT ==> count_at(
            ring_added(r, ts, n, now).per_sec,
            k as int,
        ) == if k == toward_zero(ts as int, 1_000) {
            count_at(r.per_sec, k as int).wrapping_add(n)
        } else {
            count_at(r.per_sec, k as int)
        },
{
}

/// A steady rate reads as what it is: where each of the last `secs` seconds
/// counts `c` records, they count `secs` times `c` together.
pub proof fn a_steady_rate_reads_as_it_is(m: Map<i64, u64>, c: u64, secs: nat, now: int)
    requires
        forall|k: int| now - secs < k <= now ==> #[trigger] count_at(m, k) == c,
        secs * c <= u64::MAX,
    ensures
        count_between(m, now - secs + 1, now) == secs * c,
    decreases secs,
{
    if secs > 0 {
        let rest = (secs - 1) as nat;
        assert(secs * c == rest * c + c) by (nonlinear_arith)
            requires
                secs == rest + 1,
        ;
        a_steady_rate_reads_as_it_is(m, c, rest, now - 1);
        assert(count_at(m, now) == c);
    } else {
        assert(secs * c == 0) by (nonlinear_arith)
            requires
                secs == 0,
        ;
    }
}

// ---------------------------------------------------------------------------
// Samples

/// The last `n` elements, or all of them.
pub open spec fn last_of(s: Seq<u64>, n: int) -> Seq<u64> {
    if s.len() <= n {
        s
    } else {
        s.skip(s.len() - n)
    }
}

/// The latest samples of a number.
pub struct Samples {
    pub(crate) kept: VecDeque<u64>,
}

impl View for Samples {
    type V = Seq<u64>;

    closed spec fn view(&self) -> Seq<u64> {
        self.kept@
    }
}

/// The `p`th percentile of samples, by nearest rank.
pub open spec fn percentile(s: Seq<u64>, p: int) -> Option<u64> {
    if s.len() == 0 {
        None
    } else {
        Some(ascending(s)[rank(s.len() as int, p)])
    }
}

impl Samples {
    #[verifier::type_invariant]
    closed spec fn bounded(self) -> bool {
        self.kept@.len() <= SAMPLES_KEPT
    }

    /// No samples.
    pub fn new() -> (r: Samples)
        ensures
            r@ == Seq::<u64>::empty(),
    {
        Samples { kept: VecDeque::new() }
    }

    /// Takes a sample, and lets go of the oldest beyond what is kept.
    pub fn push(&mut self, v: u64)
        ensures
            final(self)@ == last_of(old(self)@.push(v), SAMPLES_KEPT as int),
    {
        let mut kept: VecDeque<u64> = VecDeque::new();
        std::mem::swap(&mut kept, &mut self.kept);
        kept.push_back(v);
        let ghost all = kept@;
        let ghost mut gone: int = 0;
        while kept.len() > SAMPLES_KEPT
            invariant
                0 <= gone <= all.len(),
                kept@ == all.skip(gone),
                gone == 0 || kept@.len() >= SAMPLES_KEPT,
            decreases kept@.len(),
        {
            kept.pop_front();
            proof {
                assert(all.skip(gone).subrange(1, all.skip(gone).len() as int) =~= all.skip(
                    gone + 1,
                ));
                gone = gone + 1;
            }
        }
        self.kept = kept;
        assert(self@ =~= last_of(all, SAMPLES_KEPT as int));
    }

    /// The `p`th percentile, by nearest rank.
    pub fn pct(&self, p: usize) -> (r: Option<u64>)
        requires
            SAMPLES_KEPT * p <= usize::MAX,
        ensures
            r == percentile(self@, p as int),
    {
        proof {
            use_type_invariant(self);
        }
        let n = self.kept.len();
        if n == 0 {
            return None;
        }
        let mut v: Vec<u64> = Vec::new();
        let mut i: usize = 0;
        while i < n
            invariant
                i <= n == self.kept@.len(),
                v@ =~= self.kept@.take(i as int),
            decreases n - i,
        {
            v.push(self.kept[i]);
            i = i + 1;
        }
        assert(v@ =~= self.kept@);
        let sorted = sorted_copy(&v);
        assert(0 <= n * p <= SAMPLES_KEPT * p) by (nonlinear_arith)
            requires
                n <= SAMPLES_KEPT,
                0 <= p,
        ;
        let at: usize = n * p / 100;
        let k: usize = if at < n - 1 {
            at
        } else {
            n - 1
        };
        Some(sorted[k])
    }
}

} // verus!
