//! Search for the renko multiplier whose median brick count meets a target.
//!
//! The median falls with the multiplier, in steps. The search scales a warm
//! start twice; where that misses, it brackets the crossing on a logarithmic
//! scale and halves the bracket until it is narrow. It then tries one step to
//! either side, and rejects a multiplier that cannot be trusted. What counts is
//! the trailing window of the prices: what lies before it has no effect.
//!
//! A [`Solver`] decides what to ask next and what to make of an answer. Every
//! number it compares comes from its caller: medians and their relative errors
//! ([`Measurement`]) and points of the logarithmic scale ([`Point`]).

use vstd::prelude::*;
use crate::calibrate;
use crate::ieee;
use crate::ieee::Double;

verus! {

/// 1.0: a median below it is no activity at all.
pub const EPS_BPD_BITS: u64 = 0x3ff0_0000_0000_0000;

/// 0.01: relative distance under which a multiplier sits on the lower bound.
pub const EDGE_BITS: u64 = 0x3f84_7ae1_47ae_147b;

/// 0.05: the usual relative error at which a scale step is accepted.
pub const RENKO_BPD_ACCEPT_TOL: u64 = 0x3fa9_9999_9999_999a;

/// What a search is given.
#[derive(Clone, Copy, Debug)]
pub struct Settings {
    /// Target bricks per day.
    pub target: Double,
    /// Relative error at which a scale step is accepted.
    pub accept_tol: Double,
    /// Least and greatest multiplier.
    pub k_floor: Double,
    pub k_max: Double,
    /// Lower end of the bracket, and its double.
    pub k_lo: Double,
    pub k_lo_twice: Double,
    /// First guess of the bracket's upper end.
    pub k_hi_seed: Double,
    /// Halvings allowed.
    pub rounds: usize,
    /// Days of the trailing window.
    pub rolling_window_days: usize,
    /// UTC dates that the window must touch for a search.
    pub min_window_days: usize,
}

/// The instants between which prices are measured, both included.
#[derive(Clone, Copy, Debug, PartialEq, Eq, Structural)]
pub struct Span {
    pub from: i64,
    pub to: i64,
}

/// What the window gives at a multiplier `k`.
#[derive(Clone, Copy, Debug)]
pub struct Measurement {
    /// Clean days scored.
    pub days: usize,
    /// Median bricks per day.
    pub median: Double,
    /// `|median / target - 1|`.
    pub err: Double,
    /// `k * (median / target)`.
    pub scaled: Double,
    /// `k` one step up and one step down.
    pub up: Double,
    pub down: Double,
    /// `|k - k_lo| / k_lo`.
    pub edge: Double,
}

/// A point of the logarithmic scale.
#[derive(Clone, Copy, Debug)]
pub struct Point {
    /// The logarithm.
    pub ln: Double,
    /// The multiplier there, and its double.
    pub k: Double,
    pub twice: Double,
}

/// Two points and what was measured there.
#[derive(Clone, Copy, Debug)]
pub struct Bracket {
    pub lo: Point,
    pub hi: Point,
    pub lo_median: Double,
    pub hi_days: usize,
    pub hi_median: Double,
}

/// A question to the caller.
#[derive(Clone, Copy, Debug)]
pub enum Ask {
    /// Measure the prices of a window at a multiplier.
    Measure { k: Double, from: i64, to: i64 },
    /// Place a multiplier on the logarithmic scale.
    Place { k: Double },
    /// Halve a bracket, and say whether it is narrow already.
    Halve { lo: Point, hi: Point },
    /// Count the samples of a window whose brick is held up by the least brick
    /// size.
    CountClamped { k: Double, from: i64, to: i64 },
    /// Nothing: the search is over.
    Nothing,
}

/// The caller's answer.
#[derive(Clone, Copy, Debug)]
pub enum Answer {
    Measured { at: Measurement },
    Placed { point: Point },
    Halved { mid: Point, narrow: bool },
    Clamped { samples: usize, clamped: usize },
}

/// Where a search stands.
#[derive(Clone, Copy, Debug)]
pub enum State {
    /// The warm start is being measured.
    First { k: Double },
    /// The first scale step is being measured.
    Second { k: Double },
    /// The second scale step is being measured.
    Third { first: Double, k: Double },
    /// The bracket's ends are being placed.
    PlaceLo { seed: Double },
    PlaceHi { lo: Point, k: Double },
    /// The bracket's ends are being measured; the upper one moves up.
    MeasureLo { lo: Point, hi: Point },
    MeasureHi { lo: Point, lo_median: Double, hi: Point },
    Widen { lo: Point, lo_median: Double, k: Double },
    /// The bracket is being halved.
    Halving { bracket: Bracket, left: usize },
    MeasureMid { bracket: Bracket, mid: Point, left: usize },
    /// The bracket's ends are being compared.
    RungLo { bracket: Bracket },
    RungHi { bracket: Bracket, lo_score: Double },
    /// A multiplier and its neighbours are being compared.
    Center { k: Double },
    Up { k: Double, score: Double, up: Double, down: Double },
    Down { k: Double, score: Double, up: Double, up_score: Double, down: Double },
    /// The multiplier is being examined.
    Examine { k: Double },
    Responsive { k: Double },
    /// The search is over.
    Done { found: Option<Double> },
}

pub open spec fn eps_bpd() -> Double {
    Double { bits: EPS_BPD_BITS }
}

pub open spec fn edge() -> Double {
    Double { bits: EDGE_BITS }
}

/// How far a measurement is from the target; infinitely far without a clean day.
pub open spec fn score(m: Measurement) -> Double {
    if m.days == 0 {
        Double { bits: ieee::INF_64 }
    } else {
        m.err
    }
}

pub open spec fn accepted(s: Settings, m: Measurement) -> bool {
    m.days != 0 && m.err.at_most(s.accept_tol)
}

/// The next multiplier of the warm start.
pub open spec fn rescaled(s: Settings, m: Measurement) -> Double {
    ieee::clamped(m.scaled, s.k_floor, s.k_max)
}

/// The bracket goes on being halved while halvings are left.
pub open spec fn narrowing(bracket: Bracket, left: usize) -> State {
    if left == 0 {
        State::RungLo { bracket }
    } else {
        State::Halving { bracket, left }
    }
}

/// The half of the bracket in which the median crosses the target.
pub open spec fn half(s: Settings, b: Bracket, mid: Point, m: Measurement) -> Bracket {
    if s.target.below(m.median) {
        Bracket { lo: mid, lo_median: m.median, ..b }
    } else {
        Bracket { hi: mid, hi_days: m.days, hi_median: m.median, ..b }
    }
}

/// The multiplier of the three whose score is least.
pub open spec fn closest(
    k: Double,
    score: Double,
    up: Double,
    up_score: Double,
    down: Double,
    down_score: Double,
) -> Double {
    if up_score.below(score) && up_score.at_most(down_score) {
        up
    } else if down_score.below(score) {
        down
    } else {
        k
    }
}

/// What a state asks about a window.
pub open spec fn question(s: Settings, span: Span, state: State) -> Ask {
    let measure = |k: Double| Ask::Measure { k, from: span.from, to: span.to };
    match state {
        State::First { k } => measure(k),
        State::Second { k } => measure(k),
        State::Third { k, .. } => measure(k),
        State::PlaceLo { .. } => Ask::Place { k: s.k_lo },
        State::PlaceHi { k, .. } => Ask::Place { k },
        State::MeasureLo { lo, .. } => measure(lo.k),
        State::MeasureHi { hi, .. } => measure(hi.k),
        State::Widen { k, .. } => Ask::Place { k },
        State::Halving { bracket, .. } => Ask::Halve { lo: bracket.lo, hi: bracket.hi },
        State::MeasureMid { mid, .. } => measure(mid.k),
        State::RungLo { bracket } => measure(bracket.lo.k),
        State::RungHi { bracket, .. } => measure(bracket.hi.k),
        State::Center { k } => measure(k),
        State::Up { up, .. } => measure(up),
        State::Down { down, .. } => measure(down),
        State::Examine { k } => measure(k),
        State::Responsive { k } => Ask::CountClamped { k, from: span.from, to: span.to },
        State::Done { .. } => Ask::Nothing,
    }
}

/// An answer of the kind that a state waits for.
pub open spec fn fits(state: State, answer: Answer) -> bool {
    match state {
        State::PlaceLo { .. } => answer is Placed,
        State::PlaceHi { .. } => answer is Placed,
        State::Widen { .. } => answer is Placed,
        State::Halving { .. } => answer is Halved,
        State::Responsive { .. } => answer is Clamped,
        State::Done { .. } => false,
        _ => answer is Measured,
    }
}

/// What follows a measurement.
pub open spec fn measured(s: Settings, state: State, m: Measurement) -> State {
    match state {
        State::First { k } => if m.days == 0 || m.median.below(eps_bpd()) {
            State::PlaceLo { seed: s.k_hi_seed }
        } else {
            State::Second { k: rescaled(s, m) }
        },
        State::Second { k } => if accepted(s, m) {
            State::Center { k }
        } else if m.days != 0 && eps_bpd().at_most(m.median) {
            State::Third { first: k, k: rescaled(s, m) }
        } else {
            State::PlaceLo { seed: ieee::larger(s.k_hi_seed, k) }
        },
        State::Third { first, k } => if accepted(s, m) {
            State::Center { k }
        } else {
            State::PlaceLo { seed: ieee::larger(ieee::larger(s.k_hi_seed, first), k) }
        },
        State::MeasureLo { lo, hi } => if m.days == 0 || !s.target.below(m.median) {
            State::Done { found: None }
        } else {
            State::MeasureHi { lo, lo_median: m.median, hi }
        },
        State::MeasureHi { lo, lo_median, hi } => if m.days != 0 && s.target.at_most(m.median)
            && hi.k.below(s.k_max) {
            State::Widen { lo, lo_median, k: ieee::smaller(hi.twice, s.k_max) }
        } else if m.days != 0 && !m.median.below(s.target) {
            State::Done { found: None }
        } else {
            narrowing(
                Bracket { lo, hi, lo_median, hi_days: m.days, hi_median: m.median },
                s.rounds,
            )
        },
        State::MeasureMid { bracket, mid, left } => narrowing(
            half(s, bracket, mid, m),
            (left - 1) as usize,
        ),
        State::RungLo { bracket } => State::RungHi { bracket, lo_score: score(m) },
        State::RungHi { bracket, lo_score } => State::Center {
            k: if lo_score.at_most(score(m)) {
                bracket.lo.k
            } else {
                bracket.hi.k
            },
        },
        State::Center { k } => State::Up {
            k,
            score: score(m),
            up: ieee::smaller(m.up, s.k_max),
            down: ieee::larger(m.down, s.k_floor),
        },
        State::Up { k, score: center, up, down } => State::Down {
            k,
            score: center,
            up,
            up_score: score(m),
            down,
        },
        State::Down { k, score: center, up, up_score, down } => State::Examine {
            k: ieee::larger(closest(k, center, up, up_score, down, score(m)), s.k_floor),
        },
        State::Examine { k } => if m.days == 0 || m.edge.below(edge()) {
            State::Done { found: None }
        } else {
            State::Responsive { k }
        },
        _ => state,
    }
}

/// What follows an answer. An answer that was not asked for changes nothing.
pub open spec fn next(s: Settings, state: State, answer: Answer) -> State {
    if !fits(state, answer) {
        state
    } else {
        match answer {
            Answer::Measured { at } => measured(s, state, at),
            Answer::Placed { point } => match state {
                State::PlaceLo { seed } => State::PlaceHi {
                    lo: point,
                    k: ieee::larger(seed, s.k_lo_twice),
                },
                State::PlaceHi { lo, .. } => State::MeasureLo { lo, hi: point },
                State::Widen { lo, lo_median, .. } => State::MeasureHi { lo, lo_median, hi: point },
                _ => state,
            },
            Answer::Halved { mid, narrow } => match state {
                State::Halving { bracket, left } => if narrow {
                    State::RungLo { bracket }
                } else {
                    State::MeasureMid { bracket, mid, left }
                },
                _ => state,
            },
            Answer::Clamped { samples, clamped } => match state {
                State::Responsive { k } => State::Done {
                    found: if 2 * clamped > samples {
                        None
                    } else {
                        Some(k)
                    },
                },
                _ => state,
            },
        }
    }
}

/// What holds of every state of a search.
pub open spec fn sound(s: Settings, state: State) -> bool {
    match state {
        State::MeasureHi { lo_median, .. } => s.target.below(lo_median),
        State::Widen { lo_median, .. } => s.target.below(lo_median),
        State::Halving { bracket, left } => brackets(s, bracket) && 0 < left <= s.rounds,
        State::MeasureMid { bracket, left, .. } => brackets(s, bracket) && 0 < left <= s.rounds,
        State::RungLo { bracket } => brackets(s, bracket),
        State::RungHi { bracket, .. } => brackets(s, bracket),
        State::Examine { k } => !s.k_floor.nan() ==> s.k_floor.at_most(k),
        State::Responsive { k } => !s.k_floor.nan() ==> s.k_floor.at_most(k),
        State::Done { found: Some(k) } => !s.k_floor.nan() ==> s.k_floor.at_most(k),
        _ => true,
    }
}

/// The median is above the target at the lower end, and not above it at the
/// upper end (or no day counts there).
pub open spec fn brackets(s: Settings, b: Bracket) -> bool {
    s.target.below(b.lo_median) && (b.hi_days == 0 || !s.target.below(b.hi_median))
}

fn score_of(m: Measurement) -> (d: Double)
    ensures
        d == score(m),
{
    if m.days == 0 {
        Double { bits: ieee::INF_64 }
    } else {
        m.err
    }
}

/// Whether a measurement is close enough to the target.
pub fn is_accepted(s: &Settings, m: Measurement) -> (b: bool)
    ensures
        b == accepted(*s, m),
{
    m.days != 0 && m.err.le(s.accept_tol)
}

fn rescale(s: &Settings, m: Measurement) -> (k: Double)
    ensures
        k == rescaled(*s, m),
{
    ieee::clamp(m.scaled, s.k_floor, s.k_max)
}

fn narrow_on(bracket: Bracket, left: usize) -> (st: State)
    ensures
        st == narrowing(bracket, left),
{
    if left == 0 {
        State::RungLo { bracket }
    } else {
        State::Halving { bracket, left }
    }
}

fn pick(
    k: Double,
    score: Double,
    up: Double,
    up_score: Double,
    down: Double,
    down_score: Double,
) -> (c: Double)
    ensures
        c == closest(k, score, up, up_score, down, down_score),
{
    if up_score.lt(score) && up_score.le(down_score) {
        up
    } else if down_score.lt(score) {
        down
    } else {
        k
    }
}

/// What follows a measurement of the warm start.
fn after_warm(s: &Settings, state: State, m: Measurement) -> (st: State)
    requires
        state is First || state is Second || state is Third,
    ensures
        st == measured(*s, state, m),
{
    let eps = Double::from_bits(EPS_BPD_BITS);
    match state {
        State::First { .. } => if m.days == 0 || m.median.lt(eps) {
            State::PlaceLo { seed: s.k_hi_seed }
        } else {
            State::Second { k: rescale(s, m) }
        },
        State::Second { k } => if is_accepted(s, m) {
            State::Center { k }
        } else if m.days != 0 && eps.le(m.median) {
            State::Third { first: k, k: rescale(s, m) }
        } else {
            State::PlaceLo { seed: ieee::max_of(s.k_hi_seed, k) }
        },
        State::Third { first, k } => if is_accepted(s, m) {
            State::Center { k }
        } else {
            State::PlaceLo { seed: ieee::max_of(ieee::max_of(s.k_hi_seed, first), k) }
        },
        _ => state,
    }
}

/// What follows a measurement of the bracket.
fn after_bracket(s: &Settings, state: State, m: Measurement) -> (st: State)
    requires
        state is MeasureLo || state is MeasureHi || state is MeasureMid,
        sound(*s, state),
    ensures
        st == measured(*s, state, m),
{
    match state {
        State::MeasureLo { lo, hi } => if m.days == 0 || !s.target.lt(m.median) {
            State::Done { found: None }
        } else {
            State::MeasureHi { lo, lo_median: m.median, hi }
        },
        State::MeasureHi { lo, lo_median, hi } => if m.days != 0 && s.target.le(m.median)
            && hi.k.lt(s.k_max) {
            State::Widen { lo, lo_median, k: ieee::min_of(hi.twice, s.k_max) }
        } else if m.days != 0 && !m.median.lt(s.target) {
            State::Done { found: None }
        } else {
            narrow_on(
                Bracket { lo, hi, lo_median, hi_days: m.days, hi_median: m.median },
                s.rounds,
            )
        },
        State::MeasureMid { bracket, mid, left } => {
            let mut b = bracket;
            if s.target.lt(m.median) {
                b.lo = mid;
                b.lo_median = m.median;
            } else {
                b.hi = mid;
                b.hi_days = m.days;
                b.hi_median = m.median;
            }
            assert(b == half(*s, bracket, mid, m));
            narrow_on(b, left - 1)
        },
        _ => state,
    }
}

/// What follows a measurement of a candidate.
fn after_candidate(s: &Settings, state: State, m: Measurement) -> (st: State)
    requires
        state is RungLo || state is RungHi || state is Center || state is Up || state is Down
            || state is Examine,
    ensures
        st == measured(*s, state, m),
{
    match state {
        State::RungLo { bracket } => State::RungHi { bracket, lo_score: score_of(m) },
        State::RungHi { bracket, lo_score } => if lo_score.le(score_of(m)) {
            State::Center { k: bracket.lo.k }
        } else {
            State::Center { k: bracket.hi.k }
        },
        State::Center { k } => State::Up {
            k,
            score: score_of(m),
            up: ieee::min_of(m.up, s.k_max),
            down: ieee::max_of(m.down, s.k_floor),
        },
        State::Up { k, score, up, down } => State::Down {
            k,
            score,
            up,
            up_score: score_of(m),
            down,
        },
        State::Down { k, score, up, up_score, down } => State::Examine {
            k: ieee::max_of(pick(k, score, up, up_score, down, score_of(m)), s.k_floor),
        },
        State::Examine { k } => if m.days == 0 || m.edge.lt(Double::from_bits(EDGE_BITS)) {
            State::Done { found: None }
        } else {
            State::Responsive { k }
        },
        _ => state,
    }
}

/// A search for a multiplier.
#[derive(Clone, Copy, Debug)]
pub struct Solver {
    pub settings: Settings,
    pub span: Span,
    pub state: State,
}

impl Solver {
    pub open spec fn wf(self) -> bool {
        sound(self.settings, self.state)
    }

    /// What to answer next.
    pub fn ask(&self) -> (a: Ask)
        ensures
            a == question(self.settings, self.span, self.state),
    {
        let from: i64 = self.span.from;
        let to: i64 = self.span.to;
        match self.state {
            State::First { k } => Ask::Measure { k, from, to },
            State::Second { k } => Ask::Measure { k, from, to },
            State::Third { k, .. } => Ask::Measure { k, from, to },
            State::PlaceLo { .. } => Ask::Place { k: self.settings.k_lo },
            State::PlaceHi { k, .. } => Ask::Place { k },
            State::MeasureLo { lo, .. } => Ask::Measure { k: lo.k, from, to },
            State::MeasureHi { hi, .. } => Ask::Measure { k: hi.k, from, to },
            State::Widen { k, .. } => Ask::Place { k },
            State::Halving { bracket, .. } => Ask::Halve { lo: bracket.lo, hi: bracket.hi },
            State::MeasureMid { mid, .. } => Ask::Measure { k: mid.k, from, to },
            State::RungLo { bracket } => Ask::Measure { k: bracket.lo.k, from, to },
            State::RungHi { bracket, .. } => Ask::Measure { k: bracket.hi.k, from, to },
            State::Center { k } => Ask::Measure { k, from, to },
            State::Up { up, .. } => Ask::Measure { k: up, from, to },
            State::Down { down, .. } => Ask::Measure { k: down, from, to },
            State::Examine { k } => Ask::Measure { k, from, to },
            State::Responsive { k } => Ask::CountClamped { k, from, to },
            State::Done { .. } => Ask::Nothing,
        }
    }

    /// Takes an answer; one that was not asked for changes nothing.
    pub fn answer(&mut self, answer: Answer)
        requires
            old(self).wf(),
        ensures
            final(self).wf(),
            final(self).settings == old(self).settings,
            final(self).span == old(self).span,
            final(self).state == next(old(self).settings, old(self).state, answer),
    {
        let s = self.settings;
        let was = self.state;
        self.state = match (answer, was) {
            (Answer::Measured { at }, State::First { .. }) => after_warm(&s, was, at),
            (Answer::Measured { at }, State::Second { .. }) => after_warm(&s, was, at),
            (Answer::Measured { at }, State::Third { .. }) => after_warm(&s, was, at),
            (Answer::Measured { at }, State::MeasureLo { .. }) => after_bracket(&s, was, at),
            (Answer::Measured { at }, State::MeasureHi { .. }) => after_bracket(&s, was, at),
            (Answer::Measured { at }, State::MeasureMid { .. }) => after_bracket(&s, was, at),
            (Answer::Measured { at }, State::RungLo { .. }) => after_candidate(&s, was, at),
            (Answer::Measured { at }, State::RungHi { .. }) => after_candidate(&s, was, at),
            (Answer::Measured { at }, State::Center { .. }) => after_candidate(&s, was, at),
            (Answer::Measured { at }, State::Up { .. }) => after_candidate(&s, was, at),
            (Answer::Measured { at }, State::Down { .. }) => after_candidate(&s, was, at),
            (Answer::Measured { at }, State::Examine { .. }) => after_candidate(&s, was, at),
            (Answer::Placed { point }, State::PlaceLo { seed }) => State::PlaceHi {
                lo: point,
                k: ieee::max_of(seed, s.k_lo_twice),
            },
            (Answer::Placed { point }, State::PlaceHi { lo, .. }) => State::MeasureLo { lo, hi: point },
            (Answer::Placed { point }, State::Widen { lo, lo_median, .. }) => State::MeasureHi {
                lo,
                lo_median,
                hi: point,
            },
            (Answer::Halved { mid, narrow }, State::Halving { bracket, left }) => if narrow {
                State::RungLo { bracket }
            } else {
                State::MeasureMid { bracket, mid, left }
            },
            (Answer::Clamped { samples, clamped }, State::Responsive { k }) => State::Done {
                found: if (clamped as u128) * 2 > samples as u128 {
                    None
                } else {
                    Some(k)
                },
            },
            _ => was,
        };
        proof {
            answers_keep_searches_sound(s, was, answer);
        }
    }

    /// The outcome of a finished search: a multiplier, or none that can be
    /// trusted; nothing while the search goes on.
    pub fn outcome(&self) -> (o: Option<Option<Double>>)
        ensures
            o == (match self.state {
                State::Done { found } => Some(found),
                _ => None,
            }),
    {
        match self.state {
            State::Done { found } => Some(found),
            _ => None,
        }
    }
}

/// The prices of the trailing window: those at most so many days before the last.
pub open spec fn trailing(prices: Seq<(i64, Double)>, days: usize) -> Seq<(i64, Double)> {
    prices.filter(recent(prices.last().0, days))
}

pub open spec fn recent(last: i64, days: usize) -> spec_fn((i64, Double)) -> bool {
    |p: (i64, Double)| p.0 >= last - days * calibrate::MS_PER_DAY
}

/// The window of a search: from the first price of the trailing window to the
/// last price.
pub open spec fn span_of(prices: Seq<(i64, Double)>, days: usize) -> Span {
    if prices.len() == 0 {
        Span { from: 0, to: 0 }
    } else {
        Span { from: trailing(prices, days).first().0, to: prices.last().0 }
    }
}

/// The search that starts from a prior multiplier or from `default_k`. A window
/// without length or with too few days, or a target that is not positive, ends it
/// at once.
pub open spec fn search(
    settings: Settings,
    prices: Seq<(i64, Double)>,
    prior: Option<Double>,
    default_k: Double,
) -> Solver {
    let span = span_of(prices, settings.rolling_window_days);
    Solver {
        settings,
        span,
        state: if span.to <= span.from || settings.target.at_most(Double { bits: 0 })
            || calibrate::window_days(span.from, span.to) < settings.min_window_days {
            State::Done { found: None }
        } else {
            State::First {
                k: ieee::clamped(
                    match prior {
                        Some(k) => k,
                        None => default_k,
                    },
                    settings.k_floor,
                    settings.k_max,
                ),
            }
        },
    }
}

/// A search starts exactly if its window has a length and touches enough dates and its
/// target is above zero; it starts at the prior multiplier, or at the default one, held
/// within the limits. Any other is over, without a multiplier.
pub proof fn searches_start_at_the_prior(
    settings: Settings,
    prices: Seq<(i64, Double)>,
    prior: Option<Double>,
    default_k: Double,
)
    requires
        !settings.target.nan(),
        settings.k_floor.at_most(settings.k_max),
        !default_k.nan(),
        prior matches Some(k) ==> !k.nan(),
    ensures
        ({
            let s = search(settings, prices, prior, default_k);
            let warm = match prior {
                Some(k) => k,
                None => default_k,
            };
            &&& s.settings == settings
            &&& s.state is First <==> s.span.from < s.span.to && settings.target.positive()
                && settings.min_window_days <= calibrate::window_days(s.span.from, s.span.to)
            &&& !(s.state is First) ==> s.state == (State::Done { found: None })
            &&& s.state matches State::First { k } ==> {
                &&& settings.k_floor.at_most(k) && k.at_most(settings.k_max)
                &&& settings.k_floor.at_most(warm) && warm.at_most(settings.k_max) ==> k == warm
            }
        }),
{
}

fn find_span(prices: &Vec<(i64, Double)>, days: usize) -> (span: Span)
    ensures
        span == span_of(prices@, days),
{
    let n: usize = prices.len();
    if n == 0 {
        return Span { from: 0, to: 0 };
    }
    let to: i64 = prices[n - 1].0;
    assert(0 <= days * calibrate::MS_PER_DAY <= u64::MAX * 86_400_000) by (nonlinear_arith)
        requires
            0 <= days <= u64::MAX,
            calibrate::MS_PER_DAY == 86_400_000,
    ;
    let start: i128 = to as i128 - days as i128 * calibrate::MS_PER_DAY as i128;
    let mut i: usize = 0;
    while (prices[i].0 as i128) < start
        invariant
            i < n,
            n == prices.len(),
            to == prices@[n - 1].0,
            start == to - days * calibrate::MS_PER_DAY,
            0 <= days * calibrate::MS_PER_DAY,
            forall|j: int| 0 <= j < i ==> (#[trigger] prices@[j]).0 < start,
        decreases n - i,
    {
        i = i + 1;
    }
    proof {
        lemma_first_of_filter(prices@, recent(to, days), i as int);
    }
    Span { from: prices[i].0, to }
}

/// Starts a search over the trailing window of prices.
pub fn scale_to_target_k(
    settings: Settings,
    prices: &Vec<(i64, Double)>,
    prior: Option<Double>,
    default_k: Double,
) -> (s: Solver)
    ensures
        s.wf(),
        s == search(settings, prices@, prior, default_k),
{
    let span = find_span(prices, settings.rolling_window_days);
    let days: i64 = calibrate::days_touched(span.from, span.to);
    if span.to <= span.from || settings.target.le(Double::from_bits(0)) || (days as i128)
        < settings.min_window_days as i128 {
        return Solver { settings, span, state: State::Done { found: None } };
    }
    let warm = match prior {
        Some(k) => k,
        None => default_k,
    };
    let k = ieee::clamp(warm, settings.k_floor, settings.k_max);
    Solver { settings, span, state: State::First { k } }
}

/// Where a search stands after some answers of a caller, who is handed the
/// prices between the instants that the questions name.
pub open spec fn searched(
    s: Solver,
    prices: Seq<(i64, Double)>,
    caller: spec_fn(Seq<(i64, Double)>, Ask) -> Answer,
    steps: nat,
) -> State
    decreases steps,
{
    if steps == 0 {
        s.state
    } else {
        let before = searched(s, prices, caller, (steps - 1) as nat);
        next(
            s.settings,
            before,
            caller(
                prices.filter(calibrate::inside(s.span.from, s.span.to)),
                question(s.settings, s.span, before),
            ),
        )
    }
}

/// Prices before the trailing window do not matter: two series that agree in
/// their trailing windows start the same search, and whatever their prices
/// measure, it takes the same course to the same outcome.
pub proof fn earlier_prices_do_not_matter(
    settings: Settings,
    p: Seq<(i64, Double)>,
    q: Seq<(i64, Double)>,
    prior: Option<Double>,
    default_k: Double,
    caller: spec_fn(Seq<(i64, Double)>, Ask) -> Answer,
    steps: nat,
)
    requires
        p.len() > 0,
        q.len() > 0,
        trailing(p, settings.rolling_window_days) == trailing(q, settings.rolling_window_days),
    ensures
        search(settings, p, prior, default_k) == search(settings, q, prior, default_k),
        searched(search(settings, p, prior, default_k), p, caller, steps) == searched(
            search(settings, q, prior, default_k),
            q,
            caller,
            steps,
        ),
    decreases steps,
{
    let days = settings.rolling_window_days;
    lemma_trailing_ends_with_the_last(p, days);
    lemma_trailing_ends_with_the_last(q, days);
    let s = search(settings, p, prior, default_k);
    assert(s == search(settings, q, prior, default_k));
    if steps > 0 {
        earlier_prices_do_not_matter(
            settings,
            p,
            q,
            prior,
            default_k,
            caller,
            (steps - 1) as nat,
        );
        lemma_span_is_recent(p, days);
        let a = calibrate::inside::<Double>(s.span.from, s.span.to);
        let b = recent(p.last().0, days);
        assert forall|e: (i64, Double)| #[trigger] a(e) implies b(e) by {}
        lemma_filter_within(p, a, b);
        lemma_filter_within(q, a, b);
    }
}

/// The trailing window alone gives the same search and the same outcome as all
/// the prices.
pub proof fn trailing_prices_suffice(
    settings: Settings,
    p: Seq<(i64, Double)>,
    prior: Option<Double>,
    default_k: Double,
    caller: spec_fn(Seq<(i64, Double)>, Ask) -> Answer,
    steps: nat,
)
    requires
        p.len() > 0,
    ensures
        ({
            let q = trailing(p, settings.rolling_window_days);
            &&& search(settings, p, prior, default_k) == search(settings, q, prior, default_k)
            &&& searched(search(settings, p, prior, default_k), p, caller, steps) == searched(
                search(settings, q, prior, default_k),
                q,
                caller,
                steps,
            )
        }),
{
    let days = settings.rolling_window_days;
    let q = trailing(p, days);
    let b = recent(p.last().0, days);
    lemma_trailing_ends_with_the_last(p, days);
    lemma_filter_within(p, b, b);
    earlier_prices_do_not_matter(settings, p, q, prior, default_k, caller, steps);
}

proof fn lemma_trailing_ends_with_the_last(p: Seq<(i64, Double)>, days: usize)
    requires
        p.len() > 0,
    ensures
        trailing(p, days).len() > 0,
        trailing(p, days).last() == p.last(),
{
    reveal(Seq::filter);
    assert(0 <= days * calibrate::MS_PER_DAY) by (nonlinear_arith)
        requires
            0 <= days,
            calibrate::MS_PER_DAY == 86_400_000,
    ;
    assert(recent(p.last().0, days)(p.last()));
}

proof fn lemma_span_is_recent(p: Seq<(i64, Double)>, days: usize)
    requires
        p.len() > 0,
    ensures
        span_of(p, days).from >= p.last().0 - days * calibrate::MS_PER_DAY,
{
    lemma_trailing_ends_with_the_last(p, days);
    broadcast use vstd::seq_lib::group_filter_ensures;

    assert(recent(p.last().0, days)(trailing(p, days)[0]));
}

proof fn lemma_first_of_filter(
    p: Seq<(i64, Double)>,
    pred: spec_fn((i64, Double)) -> bool,
    at: int,
)
    requires
        0 <= at < p.len(),
        pred(p[at]),
        forall|j: int| 0 <= j < at ==> !pred(#[trigger] p[j]),
    ensures
        p.filter(pred).len() > 0,
        p.filter(pred).first() == p[at],
    decreases p.len(),
{
    reveal(Seq::filter);
    let d = p.drop_last();
    if at < d.len() {
        assert forall|j: int| 0 <= j < at implies !pred(#[trigger] d[j]) by {
            assert(d[j] == p[j]);
        }
        lemma_first_of_filter(d, pred, at);
    } else {
        lemma_filter_of_none(d, pred);
    }
}

proof fn lemma_filter_of_none(p: Seq<(i64, Double)>, pred: spec_fn((i64, Double)) -> bool)
    requires
        forall|j: int| 0 <= j < p.len() ==> !pred(#[trigger] p[j]),
    ensures
        p.filter(pred).len() == 0,
    decreases p.len(),
{
    reveal(Seq::filter);
    if p.len() > 0 {
        let d = p.drop_last();
        assert forall|j: int| 0 <= j < d.len() implies !pred(#[trigger] d[j]) by {
            assert(d[j] == p[j]);
        }
        lemma_filter_of_none(d, pred);
    }
}

proof fn lemma_filter_within(
    p: Seq<(i64, Double)>,
    a: spec_fn((i64, Double)) -> bool,
    b: spec_fn((i64, Double)) -> bool,
)
    requires
        forall|e: (i64, Double)| #[trigger] a(e) ==> b(e),
    ensures
        p.filter(b).filter(a) == p.filter(a),
    decreases p.len(),
{
    reveal(Seq::filter);
    if p.len() > 0 {
        let d = p.drop_last();
        lemma_filter_within(d, a, b);
        if b(p.last()) {
            assert(p.filter(b).drop_last() =~= d.filter(b));
        } else {
            assert(!a(p.last()));
        }
    }
}

/// Every answer keeps a search sound: its bracket goes on bracketing the
/// crossing, and its halvings are bounded.
pub proof fn answers_keep_searches_sound(s: Settings, state: State, answer: Answer)
    requires
        sound(s, state),
    ensures
        sound(s, next(s, state, answer)),
{
}

/// Halving a bracket uses up one of the halvings left.
pub proof fn halvings_run_out(s: Settings, bracket: Bracket, mid: Point, left: usize, m: Measurement)
    requires
        0 < left,
    ensures
        (match measured(s, State::MeasureMid { bracket, mid, left }, m) {
            State::Halving { left: after, .. } => after < left,
            State::RungLo { .. } => true,
            _ => false,
        }),
{
}

/// Of a multiplier and its two neighbours the search keeps one whose score is
/// least.
pub proof fn probe_keeps_the_closest(
    k: Double,
    score: Double,
    up: Double,
    up_score: Double,
    down: Double,
    down_score: Double,
)
    requires
        !score.nan(),
        !up_score.nan(),
        !down_score.nan(),
    ensures
        ({
            let c = closest(k, score, up, up_score, down, down_score);
            let least = if up_score.below(score) && up_score.at_most(down_score) {
                up_score
            } else if down_score.below(score) {
                down_score
            } else {
                score
            };
            &&& least.at_most(score)
            &&& least.at_most(up_score)
            &&& least.at_most(down_score)
            &&& (c == k && least == score) || (c == up && least == up_score) || (c == down && least
                == down_score)
        }),
{
}

/// A warm start that finds activity is scaled towards the target, within the limits
/// of the multiplier; one that finds none goes on to the bracket, whose lower end is
/// placed first and whose upper end is the first guess or twice the lower end, the
/// larger of them.
pub proof fn warm_starts_scale_or_bracket(
    s: Settings,
    span: Span,
    k: Double,
    m: Measurement,
    lo: Point,
)
    requires
        !s.k_hi_seed.nan(),
        !s.k_lo_twice.nan(),
        s.k_floor.at_most(s.k_max),
        !m.scaled.nan(),
    ensures
        ({
            let first = State::First { k };
            let after = next(s, first, Answer::Measured { at: m });
            let placed = next(s, after, Answer::Placed { point: lo });
            &&& question(s, span, first) == (Ask::Measure { k, from: span.from, to: span.to })
            &&& m.days > 0 && !m.median.below(Double { bits: 0x3ff0_0000_0000_0000 }) ==> {
                &&& question(s, span, after) matches Ask::Measure { k: k1, from, to }
                &&& from == span.from && to == span.to
                &&& s.k_floor.at_most(k1) && k1.at_most(s.k_max)
                &&& s.k_floor.at_most(m.scaled) && m.scaled.at_most(s.k_max) ==> k1 == m.scaled
            }
            &&& m.days == 0 || m.median.below(Double { bits: 0x3ff0_0000_0000_0000 }) ==> {
                &&& question(s, span, after) == (Ask::Place { k: s.k_lo })
                &&& question(s, span, placed) matches Ask::Place { k: hi }
                &&& hi == s.k_hi_seed || hi == s.k_lo_twice
                &&& s.k_hi_seed.at_most(hi) && s.k_lo_twice.at_most(hi)
            }
        }),
{
}

/// A scale step within the tolerance is kept: the search goes on to compare it with
/// its neighbours. One that misses is scaled once more if it found activity, and
/// leads to the bracket otherwise; so does a second one that misses. The bracket's
/// upper end is not below any multiplier that a scale step gave.
pub proof fn scale_steps_are_kept_within_the_tolerance(
    s: Settings,
    span: Span,
    k1: Double,
    m1: Measurement,
    m2: Measurement,
    lo: Point,
)
    requires
        !s.k_hi_seed.nan(),
        !s.k_lo_twice.nan(),
        s.k_floor.at_most(s.k_max),
        !k1.nan(),
        !m1.scaled.nan(),
    ensures
        ({
            let second = State::Second { k: k1 };
            let a = next(s, second, Answer::Measured { at: m1 });
            let k2 = question(s, span, a)->Measure_k;
            let b = next(s, a, Answer::Measured { at: m2 });
            let close = |m: Measurement| m.days > 0 && m.err.at_most(s.accept_tol);
            let active = m1.days > 0 && (Double { bits: 0x3ff0_0000_0000_0000 }).at_most(m1.median);
            &&& question(s, span, second) == (Ask::Measure { k: k1, from: span.from, to: span.to })
            &&& close(m1) ==> a == (State::Center { k: k1 })
            &&& !close(m1) && active ==> {
                &&& question(s, span, a) is Measure
                &&& s.k_floor.at_most(k2) && k2.at_most(s.k_max)
                &&& s.k_floor.at_most(m1.scaled) && m1.scaled.at_most(s.k_max) ==> k2 == m1.scaled
                &&& close(m2) ==> b == (State::Center { k: k2 })
                &&& !close(m2) ==> {
                    &&& question(s, span, b) == (Ask::Place { k: s.k_lo })
                    &&& question(
                        s,
                        span,
                        next(s, b, Answer::Placed { point: lo }),
                    ) matches Ask::Place { k: hi }
                    &&& k1.at_most(hi) && k2.at_most(hi) && s.k_hi_seed.at_most(hi)
                        && s.k_lo_twice.at_most(hi)
                }
            }
            &&& !close(m1) && !active ==> {
                &&& question(s, span, a) == (Ask::Place { k: s.k_lo })
                &&& question(s, span, next(s, a, Answer::Placed { point: lo })) matches Ask::Place {
                    k: hi,
                }
                &&& k1.at_most(hi) && s.k_hi_seed.at_most(hi) && s.k_lo_twice.at_most(hi)
            }
        }),
{
}

/// The lower end of a bracket is measured first. The search ends there without a
/// multiplier exactly if no clean day was scored or the median is not above the
/// target; else the upper end is measured next.
pub proof fn lower_ends_overshoot_or_end_the_search(
    s: Settings,
    span: Span,
    lo: Point,
    hi: Point,
    hi_asked: Double,
    m: Measurement,
)
    ensures
        ({
            let placed = next(s, State::PlaceHi { lo, k: hi_asked }, Answer::Placed { point: hi });
            let after = next(s, placed, Answer::Measured { at: m });
            &&& question(s, span, placed) == (Ask::Measure {
                k: lo.k,
                from: span.from,
                to: span.to,
            })
            &&& m.days == 0 || !s.target.below(m.median) ==> after == (State::Done { found: None })
            &&& m.days > 0 && s.target.below(m.median) ==> question(s, span, after) == (
            Ask::Measure { k: hi.k, from: span.from, to: span.to })
        }),
{
}

/// While the upper end of a bracket is measured, the search ends without a
/// multiplier only if clean days were scored there, the median is not below the
/// target and the end is already at the greatest multiplier. With the end below that
/// and the median at or above the target, the end is moved to its double, or to the
/// greatest multiplier if that is less, and measured again. With the median below
/// the target, or no clean day, the crossing is bracketed.
pub proof fn upper_ends_double_until_they_bracket(
    s: Settings,
    span: Span,
    lo: Point,
    lo_median: Double,
    hi: Point,
    m: Measurement,
    point: Point,
)
    requires
        !s.target.nan(),
        !s.k_max.nan(),
        !hi.k.nan(),
        !hi.twice.nan(),
        !m.median.nan(),
    ensures
        ({
            let measuring = State::MeasureHi { lo, lo_median, hi };
            let after = next(s, measuring, Answer::Measured { at: m });
            let at = |k: Double| Ask::Measure { k, from: span.from, to: span.to };
            &&& question(s, span, measuring) == at(hi.k)
            &&& after is Done ==> after == (State::Done { found: None }) && m.days > 0
                && s.target.at_most(m.median) && s.k_max.at_most(hi.k)
            &&& m.days > 0 && s.target.at_most(m.median) && s.k_max.at_most(hi.k) ==> after is Done
            &&& m.days > 0 && s.target.at_most(m.median) && hi.k.below(s.k_max) ==> {
                &&& question(s, span, after) matches Ask::Place { k }
                &&& k == hi.twice || k == s.k_max
                &&& k.at_most(hi.twice) && k.at_most(s.k_max)
                &&& next(s, after, Answer::Placed { point }) == (State::MeasureHi {
                    lo,
                    lo_median,
                    hi: point,
                })
            }
            &&& m.days == 0 || m.median.below(s.target) ==> {
                &&& s.rounds > 0 ==> question(s, span, after) == (Ask::Halve { lo, hi })
                &&& s.rounds == 0 ==> question(s, span, after) == at(lo.k)
            }
        }),
{
}

/// Halving a bracket measures its middle, and the middle takes the place of the
/// lower end if the median there is above the target, and of the upper end if it is
/// not. It goes on so while halvings are left and the bracket is not narrow; the
/// lower end is measured anew after that.
pub proof fn halvings_close_in_on_the_crossing(
    s: Settings,
    span: Span,
    bracket: Bracket,
    left: usize,
    mid: Point,
    m: Measurement,
)
    requires
        0 < left,
    ensures
        ({
            let halving = State::Halving { bracket, left };
            let halved = next(s, halving, Answer::Halved { mid, narrow: false });
            let after = next(s, halved, Answer::Measured { at: m });
            let at = |k: Double| Ask::Measure { k, from: span.from, to: span.to };
            let above = s.target.below(m.median);
            &&& question(s, span, halving) == (Ask::Halve { lo: bracket.lo, hi: bracket.hi })
            &&& question(s, span, next(s, halving, Answer::Halved { mid, narrow: true })) == at(
                bracket.lo.k,
            )
            &&& question(s, span, halved) == at(mid.k)
            &&& above && left > 1 ==> question(s, span, after) == (Ask::Halve {
                lo: mid,
                hi: bracket.hi,
            })
            &&& !above && left > 1 ==> question(s, span, after) == (Ask::Halve {
                lo: bracket.lo,
                hi: mid,
            })
            &&& above && left == 1 ==> question(s, span, after) == at(mid.k)
            &&& !above && left == 1 ==> question(s, span, after) == at(bracket.lo.k)
        }),
{
}

/// How far a measurement is from the target, without a clean day infinitely far.
pub open spec fn missed_by(m: Measurement) -> Double {
    if m.days > 0 {
        m.err
    } else {
        Double { bits: 0x7ff0_0000_0000_0000 }
    }
}

/// Both ends of a bracket are measured anew, and the one that misses the target by
/// less is gone on with; the lower end where both miss by as much.
pub proof fn the_closer_end_is_gone_on_with(
    s: Settings,
    span: Span,
    bracket: Bracket,
    a: Measurement,
    z: Measurement,
)
    requires
        !a.err.nan(),
        !z.err.nan(),
    ensures
        ({
            let low = State::RungLo { bracket };
            let high = next(s, low, Answer::Measured { at: a });
            let after = next(s, high, Answer::Measured { at: z });
            let at = |k: Double| Ask::Measure { k, from: span.from, to: span.to };
            &&& question(s, span, low) == at(bracket.lo.k)
            &&& question(s, span, high) == at(bracket.hi.k)
            &&& missed_by(a).at_most(missed_by(z)) ==> after == (State::Center { k: bracket.lo.k })
            &&& missed_by(z).below(missed_by(a)) ==> after == (State::Center { k: bracket.hi.k })
        }),
{
}

/// A multiplier is measured with its two neighbours, one step up and one step down
/// within the limits. The search goes on with one of the three, raised to the least
/// multiplier if it is below, and none of them misses the target by less; with
/// another than the first only if it misses by less.
pub proof fn neighbours_are_compared(
    s: Settings,
    span: Span,
    k: Double,
    c: Measurement,
    u: Measurement,
    d: Measurement,
)
    requires
        !c.err.nan(),
        !u.err.nan(),
        !d.err.nan(),
        !c.up.nan(),
        !c.down.nan(),
        !k.nan(),
        s.k_floor.at_most(s.k_max),
    ensures
        ({
            let center = State::Center { k };
            let first = next(s, center, Answer::Measured { at: c });
            let second = next(s, first, Answer::Measured { at: u });
            let after = next(s, second, Answer::Measured { at: d });
            let up = question(s, span, first)->Measure_k;
            let down = question(s, span, second)->Measure_k;
            let at = |k: Double| Ask::Measure { k, from: span.from, to: span.to };
            let chosen = |j: Double, m: Measurement|
                {
                    &&& after is Examine
                    &&& question(s, span, after) == at(ieee::larger(j, s.k_floor))
                    &&& missed_by(m).at_most(missed_by(c))
                    &&& missed_by(m).at_most(missed_by(u))
                    &&& missed_by(m).at_most(missed_by(d))
                };
            &&& question(s, span, center) == at(k)
            &&& question(s, span, first) == at(up)
            &&& question(s, span, second) == at(down)
            &&& (up == c.up || up == s.k_max) && up.at_most(c.up) && up.at_most(s.k_max)
            &&& (down == c.down || down == s.k_floor) && c.down.at_most(down) && s.k_floor.at_most(
                down,
            )
            &&& chosen(k, c) || chosen(up, u) || chosen(down, d)
            &&& missed_by(c).at_most(missed_by(u)) && missed_by(c).at_most(missed_by(d)) ==> chosen(
                k,
                c,
            )
        }),
{
}

/// A multiplier ends a search only if a clean day is scored at it, it is not within a
/// hundredth of the lower bound, and at most half of the samples are held up by the
/// least brick size; it ends it in that case.
pub proof fn multipliers_pass_two_examinations(
    s: Settings,
    span: Span,
    k: Double,
    m: Measurement,
    samples: usize,
    clamped: usize,
)
    ensures
        ({
            let examine = State::Examine { k };
            let after = next(s, examine, Answer::Measured { at: m });
            let last = next(s, after, Answer::Clamped { samples, clamped });
            let near = m.edge.below(Double { bits: 0x3f84_7ae1_47ae_147b });
            &&& question(s, span, examine) == (Ask::Measure { k, from: span.from, to: span.to })
            &&& m.days == 0 || near ==> after == (State::Done { found: None })
            &&& m.days > 0 && !near ==> {
                &&& question(s, span, after) == (Ask::CountClamped {
                    k,
                    from: span.from,
                    to: span.to,
                })
                &&& clamped + clamped <= samples ==> last == (State::Done { found: Some(k) })
                &&& clamped + clamped > samples ==> last == (State::Done { found: None })
            }
        }),
{
}

/// The state of a search after some answers.
pub open spec fn run(s: Settings, start: State, answers: Seq<Answer>) -> State
    decreases answers.len(),
{
    if answers.len() == 0 {
        start
    } else {
        next(s, run(s, start, answers.drop_last()), answers.last())
    }
}

/// A search that ends with a multiplier examined that multiplier last: at least
/// one clean day was scored there, it is away from the lower bound, and at most
/// half of the samples are held up by the least brick size. It is not below the
/// least multiplier.
pub proof fn found_multipliers_pass_every_gate(s: Settings, start: State, answers: Seq<Answer>)
    requires
        start is First,
        !s.k_floor.nan(),
        run(s, start, answers) matches State::Done { found: Some(_) },
        !(run(s, start, answers.drop_last()) is Done),
    ensures
        ({
            let found = run(s, start, answers)->found->0;
            let before = run(s, start, answers.drop_last());
            &&& answers.last() matches Answer::Clamped { samples, clamped }
            &&& 2 * clamped <= samples
            &&& before == State::Responsive { k: found }
            &&& s.k_floor.at_most(found)
        }),
{
    lemma_runs_are_sound(s, start, answers.drop_last());
}

/// A multiplier is asked about its clamped samples only after a measurement of
/// it with a clean day and away from the lower bound.
pub proof fn responsive_multipliers_were_examined(s: Settings, state: State, answer: Answer)
    requires
        !(state is Responsive),
        next(s, state, answer) is Responsive,
    ensures
        state == (State::Examine { k: next(s, state, answer)->Responsive_k }),
        answer is Measured,
        answer->at.days > 0,
        !answer->at.edge.below(edge()),
{
}

/// The lower end of a bracket, once it is known to overshoot.
pub open spec fn low_end(state: State) -> Option<Point> {
    match state {
        State::MeasureHi { lo, .. } => Some(lo),
        State::Widen { lo, .. } => Some(lo),
        State::Halving { bracket, .. } => Some(bracket.lo),
        State::MeasureMid { bracket, .. } => Some(bracket.lo),
        State::RungLo { bracket } => Some(bracket.lo),
        State::RungHi { bracket, .. } => Some(bracket.lo),
        _ => None,
    }
}

/// The upper end of a bracket, once it is known not to overshoot.
pub open spec fn high_end(state: State) -> Option<Point> {
    match state {
        State::Halving { bracket, .. } => Some(bracket.hi),
        State::MeasureMid { bracket, .. } => Some(bracket.hi),
        State::RungLo { bracket } => Some(bracket.hi),
        State::RungHi { bracket, .. } => Some(bracket.hi),
        _ => None,
    }
}

/// Answer `i` of a search is a measurement at `k` whose median is above the target,
/// or is not (or no day counts).
pub open spec fn finds_at(
    s: Settings,
    span: Span,
    start: State,
    answers: Seq<Answer>,
    i: int,
    k: Double,
    above: bool,
) -> bool {
    match answers[i] {
        Answer::Measured { at } => question(s, span, run(s, start, answers.take(i))) == (
        Ask::Measure { k, from: span.from, to: span.to }) && if above {
            s.target.below(at.median)
        } else {
            at.days == 0 || !s.target.below(at.median)
        },
        _ => false,
    }
}

/// Some answer of a search is a measurement at `k` with the median above the target,
/// or not above it.
pub open spec fn finds(
    s: Settings,
    span: Span,
    start: State,
    answers: Seq<Answer>,
    k: Double,
    above: bool,
) -> bool {
    exists|i: int|
        0 <= i < answers.len() && #[trigger] finds_at(s, span, start, answers, i, k, above)
}

proof fn lemma_finds_still(
    s: Settings,
    span: Span,
    start: State,
    answers: Seq<Answer>,
    k: Double,
    above: bool,
)
    requires
        answers.len() > 0,
        finds(s, span, start, answers.drop_last(), k, above),
    ensures
        finds(s, span, start, answers, k, above),
{
    let head = answers.drop_last();
    let i = choose|i: int| 0 <= i < head.len() && #[trigger] finds_at(s, span, start, head, i, k, above);
    assert(head.take(i) =~= answers.take(i));
    assert(head[i] == answers[i]);
    assert(finds_at(s, span, start, answers, i, k, above));
}

/// The ends of a bracket were measured: at the lower end the median was found above
/// the target, and at the upper end not above it, or without a clean day.
pub proof fn bracket_ends_were_measured(s: Settings, span: Span, start: State, answers: Seq<Answer>)
    requires
        start is First,
    ensures
        low_end(run(s, start, answers)) matches Some(lo) ==> finds(
            s,
            span,
            start,
            answers,
            lo.k,
            true,
        ),
        high_end(run(s, start, answers)) matches Some(hi) ==> finds(
            s,
            span,
            start,
            answers,
            hi.k,
            false,
        ),
    decreases answers.len(),
{
    if answers.len() > 0 {
        let head = answers.drop_last();
        let n = head.len() as int;
        bracket_ends_were_measured(s, span, start, head);
        let before = run(s, start, head);
        let after = run(s, start, answers);
        assert(answers.take(n) =~= head);
        if low_end(before) is Some {
            lemma_finds_still(s, span, start, answers, low_end(before)->Some_0.k, true);
        }
        if high_end(before) is Some {
            lemma_finds_still(s, span, start, answers, high_end(before)->Some_0.k, false);
        }
        if low_end(after) is Some && low_end(after) != low_end(before) {
            assert(finds_at(s, span, start, answers, n, low_end(after)->Some_0.k, true));
        }
        if high_end(after) is Some && high_end(after) != high_end(before) {
            assert(finds_at(s, span, start, answers, n, high_end(after)->Some_0.k, false));
        }
    }
}

proof fn lemma_runs_are_sound(s: Settings, start: State, answers: Seq<Answer>)
    requires
        sound(s, start),
    ensures
        sound(s, run(s, start, answers)),
    decreases answers.len(),
{
    if answers.len() > 0 {
        lemma_runs_are_sound(s, start, answers.drop_last());
        answers_keep_searches_sound(s, run(s, start, answers.drop_last()), answers.last());
    }
}

} // verus!
