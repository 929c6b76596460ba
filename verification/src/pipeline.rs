//! Renko bars from raw tick files: which files, which ticks, which bars.

use vstd::prelude::*;
use crate::ieee::Double;
use crate::tally;
use crate::text;

verus! {

pub const MS_PER_DAY: i64 = 86_400_000;

/// Bytes of a record of the old tick format: time, bid, ask and two volumes.
pub const OLD_TICK_SIZE: usize = 32;

/// Bars at which counting stops.
pub const COUNT_CAP: u64 = 1_000_000;

/// A file name of ticks: it ends in `.ticks`, and is no resource fork.
pub open spec fn tick_file(name: Seq<char>) -> bool {
    text::ends(name, ".ticks"@) && name.len() > 6 && !(name.len() >= 2 && name[0] == '.' && name[1]
        == '_')
}

/// Whether a file name is that of a tick file.
pub fn is_tick_file(name: &str) -> (b: bool)
    ensures
        b == tick_file(name@),
{
    let n: usize = name.unicode_len();
    text::ends_with(name, ".ticks") && n > 6 && !(n >= 2 && name.get_char(0) == '.'
        && name.get_char(1) == '_')
}

/// Whether a file is of the old format: a whole number of old records, and not
/// of new frames.
pub fn is_old_format(len: usize, frame_size: usize) -> (b: bool)
    requires
        frame_size > 0,
    ensures
        b == (len % frame_size != 0 && len % OLD_TICK_SIZE == 0),
{
    len % frame_size != 0 && len % OLD_TICK_SIZE == 0
}

/// A record of the old tick format.
#[derive(Clone, Copy, Debug, PartialEq, Eq, Structural)]
pub struct OldTick {
    pub epoch_ms: i64,
    pub bid: Double,
    pub ask: Double,
    pub bid_vol: u32,
    pub ask_vol: u32,
}

/// The number that `n` bytes from `at` on hold, least significant first.
pub open spec fn le(b: Seq<u8>, at: int, n: int) -> int
    decreases n,
{
    if n <= 0 {
        0
    } else {
        b[at] + 256 * le(b, at + 1, n - 1)
    }
}

/// The signed number with a pattern of 64 bits.
pub open spec fn signed64(bits: int) -> int {
    if bits >= 0x8000_0000_0000_0000 {
        bits - 0x1_0000_0000_0000_0000
    } else {
        bits
    }
}

/// Bytes are read least significant first, and a pattern whose highest bit is set stands
/// for a number below zero.
pub proof fn bytes_are_read_from_the_least(b: Seq<u8>, at: int)
    ensures
        le(b, at, 4) == b[at] + 0x100 * b[at + 1] + 0x1_0000 * b[at + 2] + 0x100_0000 * b[at + 3],
        le(b, at, 8) == le(b, at, 4) + 0x1_0000_0000 * le(b, at + 4, 4),
        0 <= le(b, at, 4) < 0x1_0000_0000,
        b[at + 7] < 0x80 ==> signed64(le(b, at, 8)) == le(b, at, 8),
        b[at + 7] >= 0x80 ==> signed64(le(b, at, 8)) == le(b, at, 8) - 0x1_0000_0000_0000_0000,
{
    reveal_with_fuel(le, 9);
}

/// The record at position `i` of old-format bytes.
pub open spec fn old_tick(b: Seq<u8>, i: int) -> OldTick {
    let at = i * OLD_TICK_SIZE;
    OldTick {
        epoch_ms: signed64(le(b, at, 8)) as i64,
        bid: Double { bits: le(b, at + 8, 8) as u64 },
        ask: Double { bits: le(b, at + 16, 8) as u64 },
        bid_vol: le(b, at + 24, 4) as u32,
        ask_vol: le(b, at + 28, 4) as u32,
    }
}

fn read_u32(b: &Vec<u8>, at: usize) -> (v: u32)
    requires
        at + 4 <= b.len(),
    ensures
        v == le(b@, at as int, 4),
{
    reveal_with_fuel(le, 5);
    b[at] as u32 + 256 * (b[at + 1] as u32 + 256 * (b[at + 2] as u32 + 256 * (b[at + 3] as u32)))
}

fn read_u64(b: &Vec<u8>, at: usize) -> (v: u64)
    requires
        at + 8 <= b.len(),
    ensures
        v == le(b@, at as int, 8),
{
    reveal_with_fuel(le, 9);
    let low: u64 = read_u32(b, at) as u64;
    let high: u64 = read_u32(b, at + 4) as u64;
    low + 0x1_0000_0000 * high
}

fn read_i64(b: &Vec<u8>, at: usize) -> (v: i64)
    requires
        at + 8 <= b.len(),
    ensures
        v == signed64(le(b@, at as int, 8)),
{
    let bits: u64 = read_u64(b, at);
    if bits >= 0x8000_0000_0000_0000 {
        (bits as i128 - 0x1_0000_0000_0000_0000) as i64
    } else {
        bits as i64
    }
}

/// Reads old-format bytes; what is over after the last whole record is left.
pub fn read_old_ticks(b: &Vec<u8>) -> (ticks: Vec<OldTick>)
    ensures
        ticks@ == Seq::new((b.len() / OLD_TICK_SIZE) as nat, |i: int| old_tick(b@, i)),
{
    let n: usize = b.len() / OLD_TICK_SIZE;
    let mut ticks: Vec<OldTick> = Vec::new();
    let mut i: usize = 0;
    while i < n
        invariant
            i <= n,
            n == b.len() / OLD_TICK_SIZE,
            ticks.len() == i,
            forall|k: int| 0 <= k < i ==> #[trigger] ticks@[k] == old_tick(b@, k),
        decreases n - i,
    {
        let at: usize = i * OLD_TICK_SIZE;
        ticks.push(
            OldTick {
                epoch_ms: read_i64(b, at),
                bid: Double::from_bits(read_u64(b, at + 8)),
                ask: Double::from_bits(read_u64(b, at + 16)),
                bid_vol: read_u32(b, at + 24),
                ask_vol: read_u32(b, at + 28),
            },
        );
        i = i + 1;
    }
    ticks
}

/// The end of the warm-up: ticks before it shape the generator, and no bar that
/// they draw is kept.
pub fn bootstrap_end(first_ts: Option<i64>, days: i64) -> (end: i64)
    requires
        i64::MIN <= (match first_ts {
            Some(t) => t as int,
            None => 0,
        }) + days * MS_PER_DAY <= i64::MAX,
        i64::MIN <= days * MS_PER_DAY <= i64::MAX,
    ensures
        end == (match first_ts {
            Some(t) => t as int,
            None => 0,
        }) + days * MS_PER_DAY,
{
    let first: i64 = match first_ts {
        Some(t) => t,
        None => 0,
    };
    first + days * MS_PER_DAY
}

/// What the ticks of a bar add to it.
#[derive(Clone, Copy, Debug, PartialEq, Eq, Structural)]
pub struct Enrichment {
    pub vbid: u32,
    pub vask: u32,
    pub tick_count: u32,
    pub realized_var: Double,
    pub bipower_var: Double,
    pub drift: Double,
    pub vol_imbalance: Double,
    pub avg_spread_bps: Double,
    pub max_abs_return: Double,
    pub avg_ci_ubp: u32,
    pub reject_rate: Double,
}

/// A renko bar of the output.
#[derive(Clone, Copy, Debug, PartialEq, Eq, Structural)]
pub struct EnrichedBar {
    pub open_ts: i64,
    pub close_ts: i64,
    pub open: Double,
    pub high: Double,
    pub low: Double,
    pub close: Double,
    pub renko: bool,
    pub extra: Enrichment,
}

/// The bars that one tick drew, as the output holds them: marked as renko, and
/// the first one with what the ticks since the last burst add.
pub open spec fn burst(pending: Seq<EnrichedBar>, extra: Option<Enrichment>) -> Seq<EnrichedBar> {
    Seq::new(
        pending.len(),
        |j: int|
            EnrichedBar {
                renko: true,
                extra: match extra {
                    Some(e) => if j == 0 {
                        e
                    } else {
                        pending[j].extra
                    },
                    None => pending[j].extra,
                },
                ..pending[j]
            },
    )
}

/// More bars than the limit allows.
#[derive(Clone, Copy, Debug, PartialEq, Eq, Structural)]
pub struct TooManyBars {
    pub limit: usize,
}

impl TooManyBars {
    /// What the error says.
    pub fn message(self) -> (s: String)
        ensures
            s@ == "Bar count exceeds "@ + text::decimal(self.limit as int) + " safety limit"@,
    {
        let mut s: String = "Bar count exceeds ".to_owned();
        s.append(text::decimal_string(self.limit as u64).as_str());
        s.append(" safety limit");
        s
    }
}

/// The bars of a burst keep their times and prices, all are marked, and only the first
/// takes what the ticks add.
pub proof fn bursts_enrich_their_first_bar(
    pending: Seq<EnrichedBar>,
    extra: Option<Enrichment>,
    j: int,
)
    requires
        0 <= j < pending.len(),
    ensures
        burst(pending, extra).len() == pending.len(),
        burst(pending, extra)[j].renko,
        burst(pending, extra)[j] == (EnrichedBar {
            renko: true,
            extra: burst(pending, extra)[j].extra,
            ..pending[j]
        }),
        j > 0 || extra is None ==> burst(pending, extra)[j].extra == pending[j].extra,
        j == 0 && extra is Some ==> extra == Some(burst(pending, extra)[j].extra),
{
}

/// Adds the bars that one tick drew; too many bars are an error.
pub fn add_burst(
    bars: &mut Vec<EnrichedBar>,
    pending: &Vec<EnrichedBar>,
    extra: Option<Enrichment>,
    limit: usize,
) -> (r: Result<(), TooManyBars>)
    ensures
        final(bars)@ == old(bars)@ + burst(pending@, extra),
        r == (if pending.len() > 0 && old(bars).len() + pending.len() > limit {
            Err(TooManyBars { limit })
        } else {
            Ok(())
        }),
{
    let ghost was = bars@;
    let ghost want = burst(pending@, extra);
    let mut j: usize = 0;
    assert(was + want.take(0) =~= was);
    while j < pending.len()
        invariant
            j <= pending.len(),
            want == burst(pending@, extra),
            bars@ == was + want.take(j as int),
        decreases pending.len() - j,
    {
        let mut bar = pending[j];
        bar.renko = true;
        if j == 0 {
            match extra {
                Some(e) => {
                    bar.extra = e;
                },
                None => {},
            }
        }
        let ghost so_far = bars@;
        assert(bar == want[j as int]);
        bars.push(bar);
        assert(want.take(j + 1) =~= want.take(j as int).push(want[j as int]));
        assert(bars@ =~= was + want.take(j + 1));
        j = j + 1;
    }
    assert(want.take(j as int) =~= want);
    if pending.len() > 0 && bars.len() > limit {
        Err(TooManyBars { limit })
    } else {
        Ok(())
    }
}

/// Positions of the ticks to feed, from `i` on: those from `from` on, up to the
/// first one after `to`.
pub open spec fn fed(ts: Seq<i64>, from: i64, to: i64, i: int) -> Seq<int>
    decreases ts.len() - i,
{
    if i >= ts.len() {
        Seq::empty()
    } else if ts[i] < from {
        fed(ts, from, to, i + 1)
    } else if ts[i] > to {
        Seq::empty()
    } else {
        seq![i] + fed(ts, from, to, i + 1)
    }
}

/// A tick is fed exactly if it lies in the window and none before it lies past the
/// window; ticks are fed in their order. So of ticks in time order, those of the
/// window are fed.
pub proof fn fed_ticks_lie_in_the_window(ts: Seq<i64>, from: i64, to: i64, i: int)
    requires
        0 <= i <= ts.len(),
        from <= to,
    ensures
        forall|p: int|
            #[trigger] fed(ts, from, to, i).contains(p) <==> i <= p < ts.len() && from <= ts[p] <= to
                && forall|j: int| i <= j < p ==> (#[trigger] ts[j]) <= to,
        forall|a: int, b: int|
            0 <= a < b < fed(ts, from, to, i).len() ==> (#[trigger] fed(ts, from, to, i)[a]) < (
            #[trigger] fed(ts, from, to, i)[b]),
    decreases ts.len() - i,
{
    let all = fed(ts, from, to, i);
    if i < ts.len() {
        fed_ticks_lie_in_the_window(ts, from, to, i + 1);
        let rest = fed(ts, from, to, i + 1);
        if from <= ts[i] <= to {
            assert(all =~= seq![i] + rest);
            assert forall|p: int| #[trigger] all.contains(p) <==> p == i || rest.contains(p) by {
                if rest.contains(p) {
                    let a = choose|a: int| 0 <= a < rest.len() && rest[a] == p;
                    assert(all[a + 1] == p);
                }
                if p == i {
                    assert(all[0] == p);
                }
            }
            assert forall|a: int, b: int| 0 <= a < b < all.len() implies (#[trigger] all[a]) < (
            #[trigger] all[b]) by {
                assert(rest.contains(rest[b - 1]));
                if a > 0 {
                    assert(rest[a - 1] < rest[b - 1]);
                }
            }
        }
        assert forall|p: int|
            #[trigger] all.contains(p) <==> i <= p < ts.len() && from <= ts[p] <= to && forall|j: int|
                i <= j < p ==> (#[trigger] ts[j]) <= to by {
            assert(rest.contains(p) <==> i + 1 <= p < ts.len() && from <= ts[p] <= to && forall|j: int|
                i + 1 <= j < p ==> (#[trigger] ts[j]) <= to);
            if ts[i] > to {
                assert(!all.contains(p));
            }
        }
    }
}

/// Positions of the ticks to feed to a generator that counts `[from, to]`.
pub fn ticks_to_feed(ts: &Vec<i64>, from: i64, to: i64) -> (at: Vec<usize>)
    ensures
        at@.map_values(|i: usize| i as int) == fed(ts@, from, to, 0),
{
    let mut at: Vec<usize> = Vec::new();
    let mut i: usize = 0;
    assert(at@.map_values(|i: usize| i as int) + fed(ts@, from, to, 0) =~= fed(ts@, from, to, 0));
    while i < ts.len()
        invariant
            i <= ts.len(),
            at@.map_values(|i: usize| i as int) + fed(ts@, from, to, i as int) == fed(
                ts@,
                from,
                to,
                0,
            ),
        decreases ts.len() - i,
    {
        let t: i64 = ts[i];
        let ghost was = at@.map_values(|i: usize| i as int);
        if t >= from {
            if t > to {
                assert(was + fed(ts@, from, to, i as int) =~= was);
                return at;
            }
            at.push(i);
            assert(at@.map_values(|i: usize| i as int) =~= was.push(i as int));
            assert(was + (seq![i as int] + fed(ts@, from, to, i + 1)) =~= was.push(i as int) + fed(
                ts@,
                from,
                to,
                i + 1,
            ));
        }
        i = i + 1;
    }
    assert(at@.map_values(|i: usize| i as int) + fed(ts@, from, to, i as int) =~= at@.map_values(
        |i: usize| i as int,
    ));
    at
}

/// Bars counted so far, after `n` ticks: no more is counted once the cap is
/// passed.
pub open spec fn counted(drawn: Seq<u32>, n: int) -> int
    decreases n,
{
    if n <= 0 {
        0
    } else {
        let before = counted(drawn, n - 1);
        if before > COUNT_CAP {
            before
        } else {
            before + drawn[n - 1]
        }
    }
}

proof fn lemma_counted_stays(drawn: Seq<u32>, i: int, n: int)
    requires
        0 <= i <= n,
        counted(drawn, i) > COUNT_CAP,
    ensures
        counted(drawn, n) == counted(drawn, i),
    decreases n,
{
    if i < n {
        lemma_counted_stays(drawn, i, n - 1);
    }
}

/// All bars are counted as long as they are at most a million; past that, those of
/// the ticks up to the one with which they became more.
pub proof fn bars_are_counted_up_to_the_cap(drawn: Seq<u32>, n: int)
    requires
        0 <= n <= drawn.len(),
    ensures
        exists|k: int|
            0 <= k <= n && counted(drawn, n) == #[trigger] tally::total(k, drawn_at(drawn)) && (k == n
                || tally::total(k, drawn_at(drawn)) > 1_000_000) && forall|j: int|
                0 <= j < k ==> #[trigger] tally::total(j, drawn_at(drawn)) <= 1_000_000,
    decreases n,
{
    if n > 0 {
        bars_are_counted_up_to_the_cap(drawn, n - 1);
        let k = choose|k: int|
            0 <= k <= n - 1 && counted(drawn, n - 1) == #[trigger] tally::total(k, drawn_at(drawn))
                && (k == n - 1 || tally::total(k, drawn_at(drawn)) > 1_000_000) && forall|j: int|
                0 <= j < k ==> #[trigger] tally::total(j, drawn_at(drawn)) <= 1_000_000;
        if counted(drawn, n - 1) <= 1_000_000 {
            assert(tally::total(n, drawn_at(drawn)) == counted(drawn, n));
        }
    } else {
        assert(tally::total(0, drawn_at(drawn)) == 0);
    }
}

pub open spec fn drawn_at(drawn: Seq<u32>) -> spec_fn(int) -> int {
    |i: int| drawn[i] as int
}

/// Counts the bars that ticks drew, up to the cap.
pub fn count_bars_from_prices(drawn: &Vec<u32>) -> (n: u64)
    ensures
        n == counted(drawn@, drawn.len() as int),
{
    let mut n: u64 = 0;
    let mut i: usize = 0;
    while i < drawn.len()
        invariant
            i <= drawn.len(),
            n <= COUNT_CAP,
            n == counted(drawn@, i as int),
        decreases drawn.len() - i,
    {
        n = n + drawn[i] as u64;
        i = i + 1;
        if n > COUNT_CAP {
            proof {
                lemma_counted_stays(drawn@, i as int, drawn.len() as int);
            }
            return n;
        }
    }
    n
}

/// Start of a calibration window of some days before the last price, not before
/// the first one.
pub open spec fn window_from(first: i64, last: i64, days: int) -> int {
    if last - days * MS_PER_DAY > first {
        last - days * MS_PER_DAY
    } else {
        first as int
    }
}

/// A calibration window reaches back the days asked for, or to the first price if that
/// is later.
pub proof fn windows_reach_back_as_far_as_prices_go(first: i64, last: i64, days: int)
    requires
        first <= last,
        days >= 0,
    ensures
        first <= window_from(first, last, days) <= last,
        last - window_from(first, last, days) <= days * 86_400_000,
        window_from(first, last, days) == first || last - window_from(first, last, days) == days
            * 86_400_000,
{
}

/// Start of a calibration window; nothing when less than `min_days` of prices
/// are there.
pub fn calibration_window(first: i64, last: i64, days: u32, min_days: u32) -> (from: Option<i64>)
    requires
        first <= last,
    ensures
        from == (if last - window_from(first, last, days as int) < min_days * MS_PER_DAY {
            None
        } else {
            Some(window_from(first, last, days as int) as i64)
        }),
{
    let span: i128 = days as i128 * 86_400_000;
    let early: i128 = last as i128 - span;
    let from: i64 = if early > first as i128 {
        early as i64
    } else {
        first
    };
    if (last as i128 - from as i128) < min_days as i128 * 86_400_000 {
        None
    } else {
        Some(from)
    }
}

/// A trial multiplier and what it gave.
#[derive(Clone, Copy, Debug)]
pub struct Trial {
    /// The logarithm tried, and the multiplier there.
    pub ln: Double,
    pub mult: Double,
    /// Bars per day.
    pub bpd: Double,
    /// `|bpd / target - 1|`.
    pub err: Double,
}

/// A search by halving for the multiplier of one window.
#[derive(Clone, Copy, Debug)]
pub struct WindowSearch {
    pub target: Double,
    pub tolerance: Double,
    /// Ends of the interval of logarithms.
    pub lo: Double,
    pub hi: Double,
    /// The best multiplier so far, and its error.
    pub best: Double,
    pub best_err: Double,
    /// Rounds left.
    pub left: usize,
}

/// The search after a trial.
pub open spec fn tried(s: WindowSearch, t: Trial) -> WindowSearch {
    let better = t.err.below(s.best_err);
    let close = t.err.below(s.tolerance);
    let high = s.target.below(t.bpd);
    WindowSearch {
        best: if better {
            t.mult
        } else {
            s.best
        },
        best_err: if better {
            t.err
        } else {
            s.best_err
        },
        left: if close {
            0
        } else {
            (s.left - 1) as usize
        },
        lo: if !close && high {
            t.ln
        } else {
            s.lo
        },
        hi: if !close && !high {
            t.ln
        } else {
            s.hi
        },
        ..s
    }
}

impl WindowSearch {
    /// Takes a trial half-way between the ends.
    pub fn take_trial(&mut self, t: Trial)
        requires
            old(self).left > 0,
        ensures
            *final(self) == tried(*old(self), t),
    {
        if t.err.lt(self.best_err) {
            self.best = t.mult;
            self.best_err = t.err;
        }
        if t.err.lt(self.tolerance) {
            self.left = 0;
        } else {
            if self.target.lt(t.bpd) {
                self.lo = t.ln;
            } else {
                self.hi = t.ln;
            }
            self.left = self.left - 1;
        }
    }
}

/// A trial whose error is within the tolerance ends the search; any other halves the
/// interval and uses up a round: one with too many bars a day is the new lower end,
/// any other the new upper end, and the other end stays. Only a trial with a smaller
/// error than the best is the new best.
pub proof fn trials_halve_the_interval(s: WindowSearch, t: Trial)
    requires
        s.left > 0,
    ensures
        t.err.below(s.tolerance) ==> tried(s, t).left == 0,
        !t.err.below(s.tolerance) ==> tried(s, t).left + 1 == s.left,
        !t.err.below(s.tolerance) && s.target.below(t.bpd) ==> tried(s, t).lo == t.ln && tried(
            s,
            t,
        ).hi == s.hi,
        !t.err.below(s.tolerance) && !s.target.below(t.bpd) ==> tried(s, t).hi == t.ln && tried(
            s,
            t,
        ).lo == s.lo,
        tried(s, t).target == s.target && tried(s, t).tolerance == s.tolerance,
        t.err.below(s.best_err) ==> tried(s, t).best == t.mult && tried(s, t).best_err == t.err,
        !t.err.below(s.best_err) ==> tried(s, t).best == s.best && tried(s, t).best_err
            == s.best_err,
{
}

/// The search after some trials.
pub open spec fn after(s: WindowSearch, trials: Seq<Trial>) -> WindowSearch
    decreases trials.len(),
{
    if trials.len() == 0 {
        s
    } else {
        tried(after(s, trials.drop_last()), trials.last())
    }
}

/// The search keeps the least error it saw.
pub proof fn search_keeps_the_best(s: WindowSearch, trials: Seq<Trial>, i: int)
    requires
        0 <= i < trials.len(),
        !s.best_err.nan(),
        forall|k: int| 0 <= k < trials.len() ==> !(#[trigger] trials[k]).err.nan(),
    ensures
        after(s, trials).best_err.at_most(trials[i].err),
        after(s, trials).best_err.at_most(s.best_err),
    decreases trials.len(),
{
    let head = trials.drop_last();
    lemma_best_is_number(s, head);
    if i < trials.len() - 1 {
        assert(head[i] == trials[i]);
        assert(forall|k: int| 0 <= k < head.len() ==> (#[trigger] head[k]) == trials[k]);
        search_keeps_the_best(s, head, i);
    } else if head.len() > 0 {
        assert(forall|k: int| 0 <= k < head.len() ==> (#[trigger] head[k]) == trials[k]);
        search_keeps_the_best(s, head, 0);
    }
    assert(!trials.last().err.nan());
}

/// The best multiplier was tried, and its error is the best error; or no trial was
/// better than the start.
pub proof fn best_multipliers_were_tried(s: WindowSearch, trials: Seq<Trial>)
    ensures
        (after(s, trials).best == s.best && after(s, trials).best_err == s.best_err) || exists|i: int|
            0 <= i < trials.len() && (#[trigger] trials[i]).mult == after(s, trials).best
                && trials[i].err == after(s, trials).best_err,
    decreases trials.len(),
{
    if trials.len() > 0 {
        let head = trials.drop_last();
        best_multipliers_were_tried(s, head);
        let n = trials.len() - 1;
        assert(trials[n] == trials.last());
        if exists|i: int|
            0 <= i < head.len() && (#[trigger] head[i]).mult == after(s, head).best && head[i].err
                == after(s, head).best_err {
            let i = choose|i: int|
                0 <= i < head.len() && (#[trigger] head[i]).mult == after(s, head).best
                    && head[i].err == after(s, head).best_err;
            assert(trials[i] == head[i]);
        }
    }
}

proof fn lemma_best_is_number(s: WindowSearch, trials: Seq<Trial>)
    requires
        !s.best_err.nan(),
    ensures
        !after(s, trials).best_err.nan(),
    decreases trials.len(),
{
    if trials.len() > 0 {
        lemma_best_is_number(s, trials.drop_last());
    }
}

} // verus!
