//! Volatility over several lookbacks: which bins, which clipping, which windows
//! count.

use vstd::prelude::*;
use crate::bucket;
use crate::ieee;
use crate::ieee::Double;
use crate::renko::MS_PER_30MIN;
use crate::tally;

verus! {

/// Half hours of a day.
pub const BINS_PER_DAY: usize = 48;

/// 0.01: volatility where there is none to go by.
pub const FALLBACK_BITS: u64 = 0x3f84_7ae1_47ae_147b;

/// A source of volatility by bin.
pub trait VolSource {
    /// The bins' volatilities.
    spec fn bins(&self) -> Seq<Double>;

    /// The bin of an instant.
    spec fn bin_of(&self, mts: u64) -> usize;

    /// Number of bins.
    fn len(&self) -> (n: usize)
        ensures
            n == self.bins().len(),
    ;

    /// Volatility of a bin, 0.0 out of range.
    fn sigma_pct(&self, i: usize) -> (s: Double)
        ensures
            s == (if i < self.bins().len() {
                self.bins()[i as int]
            } else {
                Double { bits: 0 }
            }),
    ;

    /// The bin of an instant; one of the bins there are.
    fn find_index_for_mts(&self, mts: u64) -> (i: usize)
        ensures
            i == self.bin_of(mts),
            self.bins().len() > 0 ==> i < self.bins().len(),
    ;

    /// Whether there are no bins.
    fn is_empty(&self) -> (b: bool)
        ensures
            b == (self.bins().len() == 0),
    {
        self.len() == 0
    }
}

/// Volatility by bin, each bin with the instant that it starts at.
#[derive(Debug)]
pub struct VolSeries {
    stamps: Vec<u64>,
    sigmas: Vec<Double>,
}

/// The last of the first `n` bins that starts at or before an instant; the first
/// bin where none does.
pub open spec fn holding(starts: Seq<u64>, mts: u64, n: int) -> int
    decreases n,
{
    if n <= 1 {
        0
    } else if starts[n - 1] <= mts {
        n - 1
    } else {
        holding(starts, mts, n - 1)
    }
}

impl VolSeries {
    #[verifier::type_invariant]
    spec fn matched(&self) -> bool {
        self.stamps@.len() == self.sigmas@.len()
    }

    /// The instants at which the bins start.
    pub closed spec fn starts(&self) -> Seq<u64> {
        self.stamps@
    }

    /// A series of as many volatilities as bins; nothing otherwise.
    pub fn new(stamps: Vec<u64>, sigmas: Vec<Double>) -> (r: Option<VolSeries>)
        ensures
            r is Some <==> stamps.len() == sigmas.len(),
            r matches Some(v) ==> v.starts() == stamps@ && v.bins() == sigmas@,
    {
        if stamps.len() == sigmas.len() {
            Some(VolSeries { stamps, sigmas })
        } else {
            None
        }
    }
}

impl VolSource for VolSeries {
    closed spec fn bins(&self) -> Seq<Double> {
        self.sigmas@
    }

    open spec fn bin_of(&self, mts: u64) -> usize {
        holding(self.starts(), mts, self.starts().len() as int) as usize
    }

    fn len(&self) -> (n: usize) {
        self.sigmas.len()
    }

    fn sigma_pct(&self, i: usize) -> (s: Double) {
        if i < self.sigmas.len() {
            self.sigmas[i]
        } else {
            Double::from_bits(0)
        }
    }

    /// The last bin that starts at or before the instant, or the first one.
    fn find_index_for_mts(&self, mts: u64) -> (i: usize) {
        proof {
            use_type_invariant(self);
        }
        let mut n: usize = self.stamps.len();
        while n > 1 && self.stamps[n - 1] > mts
            invariant
                n <= self.stamps.len(),
                self.stamps.len() > 0 ==> n > 0,
                holding(self.stamps@, mts, self.stamps@.len() as int) == holding(
                    self.stamps@,
                    mts,
                    n as int,
                ),
            ensures
                n <= self.stamps.len(),
                n <= 1 || self.stamps@[n - 1] <= mts,
            decreases n,
        {
            n = n - 1;
        }
        if n == 0 {
            0
        } else {
            n - 1
        }
    }
}

/// Of bins in order of time, an instant finds the one that holds it: the bin
/// starts at or before the instant, and the next one after it.
pub proof fn instants_find_the_bin_that_holds_them(starts: Seq<u64>, mts: u64)
    requires
        starts.len() > 0,
        starts[0] <= mts,
        forall|i: int, j: int|
            0 <= i < j < starts.len() ==> (#[trigger] starts[i]) < (#[trigger] starts[j]),
    ensures
        ({
            let i = holding(starts, mts, starts.len() as int);
            &&& 0 <= i < starts.len()
            &&& starts[i] <= mts
            &&& i + 1 < starts.len() ==> mts < starts[i + 1]
        }),
{
    lemma_holding(starts, mts, starts.len() as int);
}

proof fn lemma_holding(starts: Seq<u64>, mts: u64, n: int)
    requires
        0 < n <= starts.len(),
        starts[0] <= mts,
        n < starts.len() ==> mts < starts[n],
    ensures
        0 <= holding(starts, mts, n) < n,
        starts[holding(starts, mts, n)] <= mts,
        holding(starts, mts, n) + 1 < starts.len() ==> mts < starts[holding(starts, mts, n) + 1],
    decreases n,
{
    if n > 1 && starts[n - 1] > mts {
        lemma_holding(starts, mts, n - 1);
    }
}

/// Position of a half hour among ascending ones: its own, or that of the next
/// one, or the last.
pub open spec fn index_of(stamps: Seq<i64>, period: int) -> int {
    let below = tally::count(stamps.len() as int, before(stamps, period)) as int;
    if stamps.len() == 0 {
        0
    } else if below < stamps.len() {
        below
    } else {
        stamps.len() - 1
    }
}

pub open spec fn before(stamps: Seq<i64>, period: int) -> spec_fn(int) -> bool {
    |i: int| stamps[i] < period
}

/// A half hour finds its own bin if there is one; else the first bin after it, and the
/// last where none is.
pub proof fn half_hours_find_their_bin(stamps: Seq<i64>, period: int)
    requires
        stamps.len() > 0,
        forall|i: int, j: int|
            0 <= i < j < stamps.len() ==> (#[trigger] stamps[i]) < (#[trigger] stamps[j]),
    ensures
        ({
            let at = index_of(stamps, period);
            &&& 0 <= at < stamps.len()
            &&& forall|j: int| 0 <= j < at ==> (#[trigger] stamps[j]) < period
            &&& stamps[at] >= period || at == stamps.len() - 1
            &&& forall|j: int| 0 <= j < stamps.len() && (#[trigger] stamps[j]) == period ==> j == at
        }),
{
    let lo = lemma_first_at_or_after(stamps, period, stamps.len() as int);
    lemma_count_prefix(stamps, period, lo, stamps.len() as int);
}

proof fn lemma_first_at_or_after(stamps: Seq<i64>, period: int, n: int) -> (lo: int)
    requires
        0 <= n <= stamps.len(),
        forall|i: int, j: int|
            0 <= i < j < stamps.len() ==> (#[trigger] stamps[i]) < (#[trigger] stamps[j]),
    ensures
        0 <= lo <= n,
        forall|k: int| 0 <= k < lo ==> (#[trigger] stamps[k]) < period,
        forall|k: int| lo <= k < n ==> (#[trigger] stamps[k]) >= period,
    decreases n,
{
    if n == 0 {
        0
    } else if stamps[n - 1] < period {
        assert forall|k: int| 0 <= k < n implies (#[trigger] stamps[k]) < period by {
            if k < n - 1 {
                assert(stamps[k] < stamps[n - 1]);
            }
        }
        n
    } else {
        lemma_first_at_or_after(stamps, period, n - 1)
    }
}

/// The bin of an instant, among bins that start at ascending half hours.
pub fn find_index_for_ts(stamps: &Vec<i64>, ts: i64) -> (i: usize)
    requires
        forall|i: int, j: int|
            0 <= i < j < stamps.len() ==> (#[trigger] stamps@[i]) < (#[trigger] stamps@[j]),
    ensures
        i == index_of(stamps@, bucket::start_of(ts, MS_PER_30MIN)),
{
    let period: i64 = bucket::bucket_start(ts, MS_PER_30MIN);
    let n: usize = stamps.len();
    let mut lo: usize = 0;
    let mut hi: usize = n;
    while lo < hi
        invariant
            n == stamps.len(),
            lo <= hi <= n,
            forall|i: int, j: int|
                0 <= i < j < stamps.len() ==> (#[trigger] stamps@[i]) < (#[trigger] stamps@[j]),
            forall|k: int| 0 <= k < lo ==> (#[trigger] stamps@[k]) < period,
            forall|k: int| hi <= k < n ==> (#[trigger] stamps@[k]) >= period,
        decreases hi - lo,
    {
        let mid: usize = lo + (hi - lo) / 2;
        if stamps[mid] < period {
            lo = mid + 1;
        } else {
            hi = mid;
        }
    }
    proof {
        lemma_count_prefix(stamps@, period as int, lo as int, n as int);
    }
    if n == 0 {
        0
    } else if lo < n {
        lo
    } else {
        n - 1
    }
}

proof fn lemma_count_prefix(stamps: Seq<i64>, period: int, lo: int, n: int)
    requires
        0 <= lo <= n <= stamps.len(),
        forall|k: int| 0 <= k < lo ==> (#[trigger] stamps[k]) < period,
        forall|k: int| lo <= k < n ==> (#[trigger] stamps[k]) >= period,
    ensures
        tally::count(n, before(stamps, period)) == lo,
    decreases n,
{
    if n > 0 {
        if lo == n {
            lemma_count_prefix(stamps, period, lo - 1, n - 1);
            assert(stamps[n - 1] < period);
        } else {
            lemma_count_prefix(stamps, period, lo, n - 1);
            assert(stamps[n - 1] >= period);
        }
    }
}

/// Start of a lookback of some days at a bin; nothing when it holds less than a
/// day.
pub open spec fn lookback(bin: int, days: int) -> Option<int> {
    let start = if bin - days * BINS_PER_DAY > 0 {
        bin - days * BINS_PER_DAY
    } else {
        0
    };
    if bin - start < BINS_PER_DAY {
        None
    } else {
        Some(start)
    }
}

/// A lookback reaches back its days of half-hour bins, or to the first bin if there are
/// fewer; one of less than a day is dropped.
pub proof fn lookbacks_reach_back_their_days(bin: int, days: int)
    requires
        bin >= 0,
        days >= 0,
    ensures
        lookback(bin, days) is None <==> bin < 48 || days == 0,
        lookback(bin, days) matches Some(start) ==> 0 <= start && 48 <= bin - start <= days * 48 && (
        start == 0 || bin - start == days * 48),
{
}

/// Volatility as a blend over lookbacks.
#[derive(Debug)]
pub struct MtfParkinsonCalculator<'a, S: VolSource> {
    pub source: &'a S,
    /// Days of the lookbacks.
    pub lookback_days: Vec<usize>,
}

/// What volatility at a bin is made of.
#[derive(Debug)]
pub enum Blend {
    /// There is no such bin.
    Missing,
    /// The samples of each lookback that is long enough.
    Windows { samples: Vec<Vec<Double>> },
}

impl<'a, S: VolSource> MtfParkinsonCalculator<'a, S> {
    pub fn new(source: &'a S, lookback_days: Vec<usize>) -> (c: Self)
        ensures
            c.source == source,
            c.lookback_days == lookback_days,
    {
        MtfParkinsonCalculator { source, lookback_days }
    }

    /// The bin of an instant.
    pub fn find_index_for_mts(&self, mts: u64) -> (i: usize)
        ensures
            i == self.source.bin_of(mts),
            self.source.bins().len() > 0 ==> i < self.source.bins().len(),
    {
        self.source.find_index_for_mts(mts)
    }

    fn collect(&self, start: usize, bin: usize) -> (v: Vec<Double>)
        requires
            start <= bin < self.source.bins().len(),
        ensures
            v@ == self.source.bins().subrange(start as int, bin + 1),
    {
        let mut v: Vec<Double> = Vec::new();
        let mut i: usize = start;
        while i <= bin
            invariant
                start <= i <= bin + 1,
                bin < self.source.bins().len(),
                v@ == self.source.bins().subrange(start as int, i as int),
            decreases bin + 1 - i,
        {
            v.push(self.source.sigma_pct(i));
            assert(v@ =~= self.source.bins().subrange(start as int, i + 1));
            if i == bin {
                return v;
            }
            i = i + 1;
        }
        v
    }

    /// The samples that volatility at a bin is blended from: those of each
    /// lookback that holds at least a day, the bin among them.
    pub fn compute_sigma(&self, bin: usize) -> (b: Blend)
        requires
            forall|i: int|
                0 <= i < self.lookback_days.len() ==> (#[trigger] self.lookback_days@[i])
                    * BINS_PER_DAY <= usize::MAX,
        ensures
            bin >= self.source.bins().len() ==> b is Missing,
            bin < self.source.bins().len() ==> b is Windows && views(b->samples@) == windows(
                self.source.bins(),
                self.lookback_days@,
                bin as int,
                self.lookback_days.len() as int,
            ),
    {
        if bin >= self.source.len() {
            return Blend::Missing;
        }
        let mut samples: Vec<Vec<Double>> = Vec::new();
        let mut i: usize = 0;
        assert(views(samples@) =~= Seq::<Seq<Double>>::empty());
        while i < self.lookback_days.len()
            invariant
                i <= self.lookback_days.len(),
                bin < self.source.bins().len(),
                forall|k: int|
                    0 <= k < self.lookback_days.len() ==> (#[trigger] self.lookback_days@[k])
                        * BINS_PER_DAY <= usize::MAX,
                views(samples@) == windows(
                    self.source.bins(),
                    self.lookback_days@,
                    bin as int,
                    i as int,
                ),
            decreases self.lookback_days.len() - i,
        {
            let days: usize = self.lookback_days[i];
            assert(self.lookback_days@[i as int] * BINS_PER_DAY <= usize::MAX);
            let back: usize = days * BINS_PER_DAY;
            let start: usize = if bin > back {
                bin - back
            } else {
                0
            };
            let ghost was = views(samples@);
            if bin - start >= BINS_PER_DAY {
                let v = self.collect(start, bin);
                let ghost part = v@;
                samples.push(v);
                assert(views(samples@) =~= was.push(part));
            }
            i = i + 1;
        }
        Blend::Windows { samples }
    }
}

pub open spec fn views(v: Seq<Vec<Double>>) -> Seq<Seq<Double>> {
    Seq::new(v.len(), |i: int| v[i]@)
}

/// The samples of the first `n` lookbacks that are long enough.
pub open spec fn windows(bins: Seq<Double>, days: Seq<usize>, bin: int, n: int) -> Seq<Seq<Double>>
    decreases n,
{
    if n <= 0 {
        Seq::empty()
    } else {
        let head = windows(bins, days, bin, n - 1);
        match lookback(bin, days[n - 1] as int) {
            None => head,
            Some(start) => head.push(bins.subrange(start, bin + 1)),
        }
    }
}

/// Every lookback that is long enough gives a window, in their order, and every window
/// ends with the sample of the bin itself and reaches back as its lookback does.
pub proof fn windows_end_with_their_bin(bins: Seq<Double>, days: Seq<usize>, bin: int, n: int)
    requires
        0 <= bin < bins.len(),
        0 <= n <= days.len(),
    ensures
        windows(bins, days, bin, n).len() == if bin < 48 {
            0
        } else {
            tally::count(n, |j: int| days[j] > 0)
        },
        forall|k: int|
            0 <= k < windows(bins, days, bin, n).len() ==> {
                let w = #[trigger] windows(bins, days, bin, n)[k];
                &&& w.len() > 48
                &&& w.last() == bins[bin]
                &&& exists|j: int|
                    0 <= j < n && w.len() - 1 == (if days[j] * 48 < bin {
                        days[j] * 48
                    } else {
                        bin
                    }) && #[trigger] days[j] > 0
                &&& forall|i: int|
                    0 <= i < w.len() ==> #[trigger] w[i] == bins[bin + 1 - w.len() + i]
            },
    decreases n,
{
    if n > 0 {
        windows_end_with_their_bin(bins, days, bin, n - 1);
        let p = |j: int| days[j] > 0;
        let head = windows(bins, days, bin, n - 1);
        let all = windows(bins, days, bin, n);
        lookbacks_reach_back_their_days(bin, days[n - 1] as int);
        assert(p(n - 1) == (days[n - 1] > 0));
        assert forall|k: int| 0 <= k < all.len() implies {
            let w = #[trigger] all[k];
            &&& w.len() > 48
            &&& w.last() == bins[bin]
            &&& exists|j: int|
                0 <= j < n && w.len() - 1 == (if days[j] * 48 < bin {
                    days[j] * 48
                } else {
                    bin
                }) && #[trigger] days[j] > 0
            &&& forall|i: int| 0 <= i < w.len() ==> #[trigger] w[i] == bins[bin + 1 - w.len() + i]
        } by {
            if k < head.len() {
                assert(all[k] == head[k]);
                let j = choose|j: int|
                    0 <= j < n - 1 && head[k].len() - 1 == (if days[j] * 48 < bin {
                        days[j] * 48
                    } else {
                        bin
                    }) && #[trigger] days[j] > 0;
                assert(days[j] > 0);
            } else {
                assert(days[n - 1] > 0);
            }
        }
    }
}

/// Whether a window's mean and variance count: a variance or a mean that is not
/// above zero drops it.
pub fn is_weighable(mean: Double, variance: Double) -> (b: bool)
    ensures
        b == !(variance.at_most(Double { bits: 0 }) || mean.at_most(Double { bits: 0 })),
{
    let zero = Double::from_bits(0);
    !(variance.le(zero) || mean.le(zero))
}

/// Volatility at a bin: `blended` where the windows carry any weight, else the
/// bin's own; the fallback without such a bin.
pub fn settle(weight_sum: Double, blended: Double, own: Option<Double>) -> (sigma: Double)
    ensures
        sigma == (match own {
            None => Double { bits: FALLBACK_BITS },
            Some(raw) => if weight_sum.positive() {
                blended
            } else {
                raw
            },
        }),
{
    match own {
        None => Double::from_bits(FALLBACK_BITS),
        Some(raw) => if weight_sum.is_positive() {
            blended
        } else {
            raw
        },
    }
}

/// Positions of values as integers in their order.
pub open spec fn ranks(v: Seq<Double>) -> Seq<i64> {
    Seq::new(v.len(), |i: int| v[i].rank() as i64)
}

/// `out` holds the values in ascending order.
pub open spec fn sorts(v: Seq<Double>, out: Seq<Double>) -> bool {
    exists|order: Seq<usize>| #[trigger]
        tally::stable_order(ranks(v), order) && out == Seq::new(
            order.len(),
            |i: int| v[order[i] as int],
        )
}

fn rank_of(d: Double) -> (r: i64)
    ensures
        r == d.rank(),
{
    if d.bits >= ieee::SIGN_64 {
        -((d.bits - ieee::SIGN_64) as i64)
    } else {
        d.bits as i64
    }
}

fn sort(v: &Vec<Double>) -> (out: Vec<Double>)
    ensures
        sorts(v@, out@),
        out.len() == v.len(),
{
    let mut keys: Vec<i64> = Vec::new();
    let mut i: usize = 0;
    while i < v.len()
        invariant
            i <= v.len(),
            keys.len() == i,
            forall|k: int| 0 <= k < i ==> #[trigger] keys@[k] == v@[k].rank(),
        decreases v.len() - i,
    {
        keys.push(rank_of(v[i]));
        i = i + 1;
    }
    assert(keys@ =~= ranks(v@));
    let order = tally::stable_sort_order(&keys);
    let ghost want = Seq::new(order@.len(), |i: int| v@[order@[i] as int]);
    let mut out: Vec<Double> = Vec::new();
    let mut i: usize = 0;
    while i < order.len()
        invariant
            i <= order.len(),
            order.len() == v.len(),
            tally::stable_order(ranks(v@), order@),
            want == Seq::new(order@.len(), |i: int| v@[order@[i] as int]),
            out@ == want.take(i as int),
        decreases order.len() - i,
    {
        out.push(v[order[i]]);
        i = i + 1;
    }
    assert(out@ =~= want);
    out
}

/// Sorted values ascend, and are those given.
pub proof fn sorted_values_ascend(v: Seq<Double>, out: Seq<Double>)
    requires
        sorts(v, out),
        v.len() <= usize::MAX,
        forall|i: int| 0 <= i < v.len() ==> !(#[trigger] v[i]).nan(),
    ensures
        out.len() == v.len(),
        forall|i: int, j: int|
            0 <= i < j < out.len() ==> (#[trigger] out[i]).at_most(#[trigger] out[j]),
        forall|i: int| 0 <= i < v.len() ==> out.contains(#[trigger] v[i]),
        forall|i: int| 0 <= i < out.len() ==> v.contains(#[trigger] out[i]),
{
    let order = choose|order: Seq<usize>| #[trigger]
        tally::stable_order(ranks(v), order) && out == Seq::new(
            order.len(),
            |i: int| v[order[i] as int],
        );
    tally::lemma_stable_order_covers(ranks(v), order);
    assert forall|i: int, j: int| 0 <= i < j < out.len() implies (#[trigger] out[i]).at_most(
        #[trigger] out[j],
    ) by {
        let a = order[i] as int;
        let b = order[j] as int;
        assert(ranks(v)[a] <= ranks(v)[b]);
        assert(!v[a].nan() && !v[b].nan());
    }
    assert forall|i: int| 0 <= i < v.len() implies out.contains(#[trigger] v[i]) by {
        assert(order.contains(i as usize));
        let k = choose|k: int| 0 <= k < order.len() && order[k] == i as usize;
        assert(out[k] == v[i]);
    }
    assert forall|i: int| 0 <= i < out.len() implies v.contains(#[trigger] out[i]) by {
        assert(v[order[i] as int] == out[i]);
    }
}

/// The values in ascending order, each held between those at two positions.
pub open spec fn clipped(s: Seq<Double>, lo: int, hi: int) -> Seq<Double> {
    Seq::new(s.len(), |i: int| ieee::clamped(s[i], s[lo], s[hi]))
}

/// Sorts the values and clips them to those at two positions. Fewer than
/// `min_samples` values stay as they are.
pub fn winsorize(v: &Vec<Double>, min_samples: usize, lo: usize, hi: usize) -> (out: Vec<Double>)
    requires
        v.len() >= min_samples ==> lo < v.len() && hi < v.len(),
        forall|i: int| 0 <= i < v.len() ==> !(#[trigger] v@[i]).nan(),
    ensures
        v.len() < min_samples ==> out@ == v@,
        v.len() >= min_samples ==> exists|s: Seq<Double>| #[trigger]
            sorts(v@, s) && out@ == clipped(s, lo as int, hi as int),
{
    if v.len() < min_samples {
        let mut out: Vec<Double> = Vec::new();
        let mut i: usize = 0;
        while i < v.len()
            invariant
                i <= v.len(),
                out@ == v@.take(i as int),
            decreases v.len() - i,
        {
            out.push(v[i]);
            i = i + 1;
        }
        assert(out@ =~= v@);
        return out;
    }
    let s = sort(v);
    let bottom = s[lo];
    let top = s[hi];
    let mut out: Vec<Double> = Vec::new();
    let mut i: usize = 0;
    while i < s.len()
        invariant
            i <= s.len(),
            lo < s.len(),
            hi < s.len(),
            bottom == s@[lo as int],
            top == s@[hi as int],
            out.len() == i,
            forall|k: int| 0 <= k < i ==> #[trigger] out@[k] == ieee::clamped(s@[k], bottom, top),
        decreases s.len() - i,
    {
        out.push(ieee::clamp(s[i], bottom, top));
        i = i + 1;
    }
    assert(out@ =~= clipped(s@, lo as int, hi as int));
    out
}

/// Sorts the values and clips as many at each end. Fewer than `min_samples` values
/// stay as they are.
pub fn winsorize_evenly(v: &Vec<Double>, min_samples: usize, lo: usize) -> (out: Vec<Double>)
    requires
        v.len() >= min_samples ==> lo < v.len(),
        forall|i: int| 0 <= i < v.len() ==> !(#[trigger] v@[i]).nan(),
    ensures
        v.len() < min_samples ==> out@ == v@,
        v.len() >= min_samples ==> exists|s: Seq<Double>| #[trigger]
            sorts(v@, s) && out@ == clipped(s, lo as int, v.len() - 1 - lo),
{
    let hi: usize = if v.len() >= min_samples {
        v.len() - 1 - lo
    } else {
        0
    };
    winsorize(v, min_samples, lo, hi)
}

/// Clipped values lie between the two that clip them.
pub proof fn outliers_are_clipped(s: Seq<Double>, lo: int, hi: int, i: int)
    requires
        0 <= lo < s.len(),
        0 <= hi < s.len(),
        0 <= i < s.len(),
        s[lo].at_most(s[hi]),
        !s[i].nan(),
    ensures
        s[lo].at_most(clipped(s, lo, hi)[i]),
        clipped(s, lo, hi)[i].at_most(s[hi]),
        s[lo].at_most(s[i]) && s[i].at_most(s[hi]) ==> clipped(s, lo, hi)[i] == s[i],
{
    ieee::clamping_bounds(s[i], s[lo], s[hi]);
}

} // verus!
