//! Renko bars with adaptive bricks.
//!
//! A tick draws bars as long as the price is a brick away from the last close,
//! upwards and then downwards. The brick follows volatility and is sized anew
//! every half hour; new closes lie on its price grid, and the last close stays
//! where it is, so that every bar opens where the one before it closed. The
//! generator decides which bars a tick draws; sizes, grid and distances are
//! computed by its caller, to whom it puts its questions ([`Ask`]).

use vstd::prelude::*;
use crate::calendar;
use crate::ieee;
use crate::ieee::{Double, Single};
use crate::tally;

verus! {

pub const MS_PER_30MIN: i64 = 1_800_000;

/// Bars that one tick may draw.
pub const MAX_BRICKS_PER_TICK: usize = 10_000;

/// 0.001 and 1.0: the least and the greatest multiplier.
pub const MIN_MULTIPLIER_BITS: u32 = 0x3a83_126f;

pub const MAX_MULTIPLIER_BITS: u32 = 0x3f80_0000;

/// Brick size as a share of the price: a multiple of volatility within limits.
#[derive(Clone, Copy, Debug, PartialEq, Eq, Structural)]
pub struct RenkoConfig {
    pub multiplier: Single,
    pub min_pct: Single,
    pub max_pct: Single,
}

#[derive(Clone, Copy, Debug, PartialEq, Eq, Structural)]
pub enum ConfigError {
    /// The multiplier is out of range.
    Multiplier { multiplier: Single },
    /// The least share is not below the greatest.
    Limits,
}

impl Default for RenkoConfig {
    /// 0.075, 0.001 and 0.10.
    fn default() -> (c: RenkoConfig)
        ensures
            c.multiplier.bits == 0x3d99_999au32,
            c.min_pct.bits == 0x3a83_126fu32,
            c.max_pct.bits == 0x3dcc_cccdu32,
    {
        RenkoConfig {
            multiplier: Single { bits: 0x3d99_999a },
            min_pct: Single { bits: 0x3a83_126f },
            max_pct: Single { bits: 0x3dcc_cccd },
        }
    }
}

impl RenkoConfig {
    /// A name for output files, from the multiplier in ten-thousandths and the
    /// least share in millionths.
    pub fn id(multiplier_units: u16, min_pct_units: u16) -> (s: String)
        ensures
            s@ == "m"@ + calendar::padded(multiplier_units as int, 4) + "_mp"@
                + calendar::padded(min_pct_units as int, 4),
    {
        let mut s: String = "m".to_owned();
        s.append(calendar::pad(multiplier_units as u64, 4).as_str());
        s.append("_mp");
        s.append(calendar::pad(min_pct_units as u64, 4).as_str());
        s
    }

    /// What is wrong with the configuration, if anything.
    pub open spec fn fault(self) -> Option<ConfigError> {
        if !((Single { bits: MIN_MULTIPLIER_BITS }).at_most(self.multiplier)
            && self.multiplier.at_most(Single { bits: MAX_MULTIPLIER_BITS })) {
            Some(ConfigError::Multiplier { multiplier: self.multiplier })
        } else if self.max_pct.at_most(self.min_pct) {
            Some(ConfigError::Limits)
        } else {
            None
        }
    }

    /// A configuration is sound exactly if its multiplier lies between a thousandth and
    /// one and its least share is not at or above its greatest; a multiplier out of range
    /// is told first.
    pub proof fn sound_configurations_are_in_range(self)
        ensures
            self.fault() is None <==> (Single { bits: 0x3a83_126f }).at_most(self.multiplier)
                && self.multiplier.at_most(Single { bits: 0x3f80_0000 }) && !self.max_pct.at_most(
                self.min_pct,
            ),
            self.fault() == Some(ConfigError::Limits) ==> (Single { bits: 0x3a83_126f }).at_most(
                self.multiplier,
            ) && self.multiplier.at_most(Single { bits: 0x3f80_0000 }),
    {
    }

    pub fn validate(&self) -> (r: Result<(), ConfigError>)
        ensures
            r == (match self.fault() {
                Some(e) => Err(e),
                None => Ok(()),
            }),
    {
        let least = Single { bits: MIN_MULTIPLIER_BITS };
        let most = Single { bits: MAX_MULTIPLIER_BITS };
        if !(least.le(self.multiplier) && self.multiplier.le(most)) {
            Err(ConfigError::Multiplier { multiplier: self.multiplier })
        } else if self.max_pct.le(self.min_pct) {
            Err(ConfigError::Limits)
        } else {
            Ok(())
        }
    }
}

/// A bar.
#[derive(Clone, Copy, Debug, PartialEq, Eq, Structural)]
pub struct RenkoBar {
    pub open_ts: i64,
    pub timestamp: i64,
    pub open: Double,
    pub high: Double,
    pub low: Double,
    pub close: Double,
    /// 1 for up, -1 for down.
    pub direction: i8,
    pub brick_size: Double,
    /// Ticks since the bar before; 0 for bars that only fill a gap.
    pub tick_count: u32,
    /// Time since the bar before, in 32 bits.
    pub duration_ms: u32,
}

/// A question to the caller.
#[derive(Clone, Copy, Debug)]
pub enum Ask {
    /// Size the brick at a price and time, and snap the price to its grid.
    Brick { price: Double, ts: i64 },
    /// See whether the price is a brick away from a close, and where the next
    /// close would lie.
    Rung { from: Double, price: Double, up: bool },
    Nothing,
}

/// The caller's answer.
#[derive(Clone, Copy, Debug)]
pub enum Answer {
    Sized { size: Double, grid: Double, snapped: Double },
    Stepped { reached: bool, close: Double },
}

/// What the generator is doing.
#[derive(Clone, Copy, Debug, PartialEq, Eq, Structural)]
pub enum Stage {
    Idle,
    /// The first tick waits for its brick.
    Start { ts: i64, price: Double },
    /// A tick of a new half hour waits for its brick.
    Resize { ts: i64, price: Double },
    /// Bars are drawn upwards or downwards.
    Draw { ts: i64, price: Double, up: bool, first: bool, bricks: usize },
}

/// Draws bars from ticks.
#[derive(Clone, Copy, Debug)]
pub struct RenkoGenerator {
    pub config: RenkoConfig,
    pub brick_size: Double,
    pub grid_step: Double,
    /// Half hour at which the brick was sized.
    pub last_recompute_period: i64,
    pub initialized: bool,
    pub last_close: Double,
    pub pending_high: Double,
    pub pending_low: Double,
    pub bar_start_ts: i64,
    pub tick_count: u32,
    pub n_bars: usize,
    pub total_duration_ms: u64,
    pub stage: Stage,
}

/// Number of the half hour that holds an instant, towards zero.
pub open spec fn half_hour(ts: i64) -> int {
    if ts >= 0 {
        ts as int / MS_PER_30MIN as int
    } else {
        -(-ts as int / MS_PER_30MIN as int)
    }
}

fn half_hour_of(ts: i64) -> (p: i64)
    ensures
        p == half_hour(ts),
{
    if ts >= 0 {
        ts / MS_PER_30MIN
    } else {
        (-(-(ts as i128) / 1_800_000)) as i64
    }
}

/// A price or brick with which nothing can be drawn.
pub open spec fn degenerate(brick: Double, price: Double) -> bool {
    brick.at_most(Double { bits: 0 }) || !brick.finite() || !price.finite() || price.at_most(
        Double { bits: 0 },
    )
}

/// The time between two instants, in 32 bits.
pub open spec fn elapsed(from: i64, to: i64) -> u32 {
    ((to - from) % 0x1_0000_0000) as u32
}

/// A total after the time between two instants is added to it, in 64 bits.
pub open spec fn longer(total: u64, from: i64, to: i64) -> u64 {
    ((total + (to - from)) % 0x1_0000_0000_0000_0000) as u64
}

/// The generator once the brick of a tick is known.
pub open spec fn drawing(g: RenkoGenerator, ts: i64, price: Double) -> RenkoGenerator {
    if degenerate(g.brick_size, price) {
        RenkoGenerator { stage: Stage::Idle, ..g }
    } else {
        RenkoGenerator {
            pending_high: ieee::larger(g.pending_high, price),
            pending_low: ieee::smaller(g.pending_low, price),
            stage: Stage::Draw { ts, price, up: true, first: true, bricks: 0 },
            ..g
        }
    }
}

/// The generator after a tick comes in.
pub open spec fn ticked(g: RenkoGenerator, ts: i64, price: Double) -> RenkoGenerator {
    if !g.initialized {
        RenkoGenerator { stage: Stage::Start { ts, price }, ..g }
    } else {
        let counted = RenkoGenerator { tick_count: (g.tick_count + 1) as u32, ..g };
        if half_hour(ts) > g.last_recompute_period {
            RenkoGenerator { stage: Stage::Resize { ts, price }, ..counted }
        } else {
            drawing(counted, ts, price)
        }
    }
}

/// The bar that a step draws.
pub open spec fn bar_of(
    g: RenkoGenerator,
    ts: i64,
    up: bool,
    first: bool,
    close: Double,
) -> RenkoBar {
    RenkoBar {
        open_ts: g.bar_start_ts,
        timestamp: ts,
        open: g.last_close,
        high: if up {
            close
        } else if first {
            ieee::larger(g.pending_high, g.last_close)
        } else {
            g.last_close
        },
        low: if !up {
            close
        } else if first {
            ieee::smaller(g.pending_low, g.last_close)
        } else {
            g.last_close
        },
        close,
        direction: if up {
            1
        } else {
            (-1) as i8
        },
        brick_size: g.brick_size,
        tick_count: if first {
            g.tick_count
        } else {
            0
        },
        duration_ms: elapsed(g.bar_start_ts, ts),
    }
}

/// Whether a step draws a bar: the price is a brick away, the close advances,
/// and the tick has not drawn too many.
pub open spec fn draws(g: RenkoGenerator, up: bool, bricks: int, reached: bool, close: Double) -> bool {
    reached && bricks < MAX_BRICKS_PER_TICK && !(if up {
        close.at_most(g.last_close)
    } else {
        g.last_close.at_most(close)
    })
}

/// The generator after an answer, and the bar it draws.
pub open spec fn answered(g: RenkoGenerator, a: Answer) -> (RenkoGenerator, Option<RenkoBar>) {
    match (g.stage, a) {
        (Stage::Start { ts, price }, Answer::Sized { size, grid, snapped }) => (
            RenkoGenerator {
                brick_size: size,
                grid_step: grid,
                last_recompute_period: half_hour(ts) as i64,
                last_close: snapped,
                pending_high: price,
                pending_low: price,
                bar_start_ts: ts,
                tick_count: 1,
                initialized: true,
                stage: Stage::Idle,
                ..g
            },
            None,
        ),
        (Stage::Resize { ts, price }, Answer::Sized { size, grid, .. }) => (
            drawing(
                RenkoGenerator {
                    brick_size: size,
                    grid_step: grid,
                    last_recompute_period: half_hour(ts) as i64,
                    ..g
                },
                ts,
                price,
            ),
            None,
        ),
        (
            Stage::Draw { ts, price, up, first, bricks },
            Answer::Stepped { reached, close },
        ) => if draws(g, up, bricks as int, reached, close) {
            (
                RenkoGenerator {
                    last_close: close,
                    pending_high: close,
                    pending_low: close,
                    bar_start_ts: ts,
                    tick_count: 0,
                    n_bars: (g.n_bars + 1) as usize,
                    total_duration_ms: longer(g.total_duration_ms, g.bar_start_ts, ts),
                    stage: Stage::Draw {
                        ts,
                        price,
                        up,
                        first: false,
                        bricks: (bricks + 1) as usize,
                    },
                    ..g
                },
                Some(bar_of(g, ts, up, first, close)),
            )
        } else {
            (
                RenkoGenerator {
                    stage: if up {
                        Stage::Draw { ts, price, up: false, first: true, bricks }
                    } else {
                        Stage::Idle
                    },
                    ..g
                },
                None,
            )
        },
        _ => (g, None),
    }
}

/// What the generator asks.
pub open spec fn question(g: RenkoGenerator) -> Ask {
    match g.stage {
        Stage::Idle => Ask::Nothing,
        Stage::Start { ts, price } => Ask::Brick { price, ts },
        Stage::Resize { ts, price } => Ask::Brick { price, ts },
        Stage::Draw { price, up, .. } => Ask::Rung { from: g.last_close, price, up },
    }
}

fn elapsed_ms(from: i64, to: i64) -> (d: u32)
    ensures
        d == elapsed(from, to),
{
    let span: i128 = to as i128 - from as i128;
    match span.checked_rem_euclid(0x1_0000_0000) {
        Some(d) => d as u32,
        None => 0,
    }
}

fn longer_by(total: u64, from: i64, to: i64) -> (d: u64)
    ensures
        d == longer(total, from, to),
{
    let sum: i128 = total as i128 + (to as i128 - from as i128);
    match sum.checked_rem_euclid(0x1_0000_0000_0000_0000) {
        Some(d) => d as u64,
        None => 0,
    }
}

impl RenkoGenerator {
    /// A tick never draws more bars than it may, and only the first one starts
    /// the generator.
    pub open spec fn wf(self) -> bool {
        match self.stage {
            Stage::Draw { bricks, .. } => bricks <= MAX_BRICKS_PER_TICK && self.initialized,
            Stage::Resize { .. } => self.initialized,
            Stage::Start { .. } => !self.initialized,
            Stage::Idle => true,
        }
    }

    /// A generator that has seen no tick.
    pub fn new(config: RenkoConfig) -> (r: Result<RenkoGenerator, ConfigError>)
        ensures
            r is Err <==> config.fault() is Some,
            r matches Err(e) ==> config.fault() == Some(e),
            r matches Ok(g) ==> g.wf() && g == (RenkoGenerator {
                config,
                brick_size: Double { bits: 0 },
                grid_step: Double { bits: 0 },
                last_recompute_period: i64::MIN,
                initialized: false,
                last_close: Double { bits: 0 },
                pending_high: Double { bits: 0 },
                pending_low: Double { bits: 0 },
                bar_start_ts: 0,
                tick_count: 0,
                n_bars: 0,
                total_duration_ms: 0,
                stage: Stage::Idle,
            }),
    {
        match config.validate() {
            Err(e) => Err(e),
            Ok(()) => {
                let zero = Double::from_bits(0);
                Ok(
                    RenkoGenerator {
                        config,
                        brick_size: zero,
                        grid_step: zero,
                        last_recompute_period: i64::MIN,
                        initialized: false,
                        last_close: zero,
                        pending_high: zero,
                        pending_low: zero,
                        bar_start_ts: 0,
                        tick_count: 0,
                        n_bars: 0,
                        total_duration_ms: 0,
                        stage: Stage::Idle,
                    },
                )
            },
        }
    }

    /// Bars drawn, and their durations in all.
    pub fn stats(&self) -> (s: (usize, u64))
        ensures
            s == (self.n_bars, self.total_duration_ms),
    {
        (self.n_bars, self.total_duration_ms)
    }

    /// What to answer next.
    pub fn ask(&self) -> (a: Ask)
        ensures
            a == question(*self),
    {
        match self.stage {
            Stage::Idle => Ask::Nothing,
            Stage::Start { ts, price } => Ask::Brick { price, ts },
            Stage::Resize { ts, price } => Ask::Brick { price, ts },
            Stage::Draw { price, up, .. } => Ask::Rung { from: self.last_close, price, up },
        }
    }

    fn draw(&mut self, ts: i64, price: Double)
        requires
            old(self).wf(),
            old(self).initialized,
        ensures
            final(self).wf(),
            *final(self) == drawing(*old(self), ts, price),
    {
        let zero = Double::from_bits(0);
        let sz = self.brick_size;
        if sz.le(zero) || !sz.is_finite() || !price.is_finite() || price.le(zero) {
            self.stage = Stage::Idle;
        } else {
            self.pending_high = ieee::max_of(self.pending_high, price);
            self.pending_low = ieee::min_of(self.pending_low, price);
            self.stage = Stage::Draw { ts, price, up: true, first: true, bricks: 0 };
        }
    }

    /// Takes a tick.
    pub fn feed_tick(&mut self, ts: i64, price: Double)
        requires
            old(self).wf(),
            old(self).stage == Stage::Idle,
            old(self).tick_count < u32::MAX,
        ensures
            final(self).wf(),
            *final(self) == ticked(*old(self), ts, price),
    {
        if !self.initialized {
            self.stage = Stage::Start { ts, price };
            return ;
        }
        self.tick_count = self.tick_count + 1;
        if half_hour_of(ts) > self.last_recompute_period {
            self.stage = Stage::Resize { ts, price };
        } else {
            self.draw(ts, price);
        }
    }

    /// Takes an answer and gives the bar that it draws; an answer that was not
    /// asked for changes nothing.
    pub fn answer(&mut self, a: Answer) -> (bar: Option<RenkoBar>)
        requires
            old(self).wf(),
            old(self).n_bars < usize::MAX,
        ensures
            final(self).wf(),
            (*final(self), bar) == answered(*old(self), a),
    {
        match (self.stage, a) {
            (Stage::Start { ts, price }, Answer::Sized { size, grid, snapped }) => {
                self.brick_size = size;
                self.grid_step = grid;
                self.last_recompute_period = half_hour_of(ts);
                self.last_close = snapped;
                self.pending_high = price;
                self.pending_low = price;
                self.bar_start_ts = ts;
                self.tick_count = 1;
                self.initialized = true;
                self.stage = Stage::Idle;
                None
            },
            (Stage::Resize { ts, price }, Answer::Sized { size, grid, .. }) => {
                self.brick_size = size;
                self.grid_step = grid;
                self.last_recompute_period = half_hour_of(ts);
                self.draw(ts, price);
                None
            },
            (
                Stage::Draw { ts, price, up, first, bricks },
                Answer::Stepped { reached, close },
            ) => {
                let stuck = if up {
                    close.le(self.last_close)
                } else {
                    self.last_close.le(close)
                };
                if !reached || stuck || bricks >= MAX_BRICKS_PER_TICK {
                    self.stage = if up {
                        Stage::Draw { ts, price, up: false, first: true, bricks }
                    } else {
                        Stage::Idle
                    };
                    return None;
                }
                Some(self.step(ts, price, up, first, bricks, close))
            },
            _ => None,
        }
    }

    fn step(
        &mut self,
        ts: i64,
        price: Double,
        up: bool,
        first: bool,
        bricks: usize,
        close: Double,
    ) -> (bar: RenkoBar)
        requires
            old(self).wf(),
            old(self).n_bars < usize::MAX,
            old(self).stage == (Stage::Draw { ts, price, up, first, bricks }),
            draws(*old(self), up, bricks as int, true, close),
        ensures
            final(self).wf(),
            (*final(self), Some(bar)) == answered(
                *old(self),
                Answer::Stepped { reached: true, close },
            ),
    {
        let duration: u32 = elapsed_ms(self.bar_start_ts, ts);
        let high = if up {
            close
        } else if first {
            ieee::max_of(self.pending_high, self.last_close)
        } else {
            self.last_close
        };
        let low = if !up {
            close
        } else if first {
            ieee::min_of(self.pending_low, self.last_close)
        } else {
            self.last_close
        };
        let bar = RenkoBar {
            open_ts: self.bar_start_ts,
            timestamp: ts,
            open: self.last_close,
            high,
            low,
            close,
            direction: if up {
                1
            } else {
                -1
            },
            brick_size: self.brick_size,
            tick_count: if first {
                self.tick_count
            } else {
                0
            },
            duration_ms: duration,
        };
        self.total_duration_ms = longer_by(self.total_duration_ms, self.bar_start_ts, ts);
        self.n_bars = self.n_bars + 1;
        self.last_close = close;
        self.pending_high = close;
        self.pending_low = close;
        self.bar_start_ts = ts;
        self.tick_count = 0;
        self.stage = Stage::Draw { ts, price, up, first: false, bricks: bricks + 1 };
        bar
    }
}

/// A bar opens where the generator last closed, and the generator's last close
/// is then the bar's. Once a generator has started, nothing but a bar moves its
/// last close.
pub proof fn bars_connect(g: RenkoGenerator, a: Answer)
    ensures
        answered(g, a).1 matches Some(bar) ==> bar.open == g.last_close && bar.close == answered(
            g,
            a,
        ).0.last_close,
        answered(g, a).1 is None && !(g.stage is Start) ==> answered(g, a).0.last_close
            == g.last_close,
{
}

/// A tick never moves the last close by itself.
pub proof fn ticks_keep_the_last_close(g: RenkoGenerator, ts: i64, price: Double)
    ensures
        ticked(g, ts, price).last_close == g.last_close,
{
}

/// What happens to a generator.
pub enum Event {
    Tick { ts: i64, price: Double },
    Answered { answer: Answer },
}

pub open spec fn with_bar(bars: Seq<RenkoBar>, bar: Option<RenkoBar>) -> Seq<RenkoBar> {
    match bar {
        Some(b) => bars.push(b),
        None => bars,
    }
}

/// The generator after events, and the bars drawn on the way.
pub open spec fn played(g: RenkoGenerator, events: Seq<Event>) -> (RenkoGenerator, Seq<RenkoBar>)
    decreases events.len(),
{
    if events.len() == 0 {
        (g, Seq::empty())
    } else {
        let (h, bars) = played(g, events.drop_last());
        match events.last() {
            Event::Tick { ts, price } => (ticked(h, ts, price), bars),
            Event::Answered { answer } => (
                answered(h, answer).0,
                with_bar(bars, answered(h, answer).1),
            ),
        }
    }
}

/// Whatever ticks and answers come in, and however often the brick is sized anew,
/// each bar opens where the one before it closed; the first opens where a started
/// generator stood, and the last leaves the generator at its close.
pub proof fn consecutive_bars_connect(g: RenkoGenerator, events: Seq<Event>)
    requires
        g.wf(),
    ensures
        played(g, events).0.wf(),
        forall|i: int|
            #![trigger played(g, events).1[i]]
            0 < i < played(g, events).1.len() ==> played(g, events).1[i].open == played(
                g,
                events,
            ).1[i - 1].close,
        g.initialized && played(g, events).1.len() > 0 ==> played(g, events).1[0].open
            == g.last_close,
        g.initialized && played(g, events).1.len() == 0 ==> played(g, events).0.last_close
            == g.last_close,
        played(g, events).1.len() > 0 ==> played(g, events).1.last().close == played(
            g,
            events,
        ).0.last_close,
        g.initialized || played(g, events).1.len() > 0 ==> played(g, events).0.initialized,
    decreases events.len(),
{
    if events.len() > 0 {
        consecutive_bars_connect(g, events.drop_last());
    }
}

/// A brick that was asked for is the generator's from the answer on, with its grid,
/// and the half hour of its tick is the one at which the brick was sized.
pub proof fn answered_bricks_are_taken(g: RenkoGenerator, size: Double, grid: Double, snapped: Double)
    requires
        g.wf(),
        question(g) is Brick,
    ensures
        ({
            let h = answered(g, Answer::Sized { size, grid, snapped }).0;
            &&& h.brick_size == size
            &&& h.grid_step == grid
            &&& h.last_recompute_period == half_hour(question(g)->ts)
            &&& h.initialized
            &&& g.initialized ==> h.last_close == g.last_close
            &&& !g.initialized ==> h.last_close == snapped && h.stage is Idle
        }),
{
}

/// A tick asks for a brick exactly if it is the first or of a later half hour than the
/// brick was sized at, and it asks at its own price and time.
pub proof fn later_half_hours_ask_for_a_brick(g: RenkoGenerator, ts: i64, price: Double)
    ensures
        !g.initialized || half_hour(ts) > g.last_recompute_period ==> question(
            ticked(g, ts, price),
        ) == (Ask::Brick { price, ts }),
        g.initialized && half_hour(ts) <= g.last_recompute_period ==> !(question(
            ticked(g, ts, price),
        ) is Brick),
        g.initialized && half_hour(ts) <= g.last_recompute_period && !degenerate(
            g.brick_size,
            price,
        ) ==> question(ticked(g, ts, price)) == (Ask::Rung {
            from: g.last_close,
            price,
            up: true,
        }),
        ts >= 0 ==> half_hour(ts) * 1_800_000 <= ts < (half_hour(ts) + 1) * 1_800_000,
        ts < 0 ==> (half_hour(ts) - 1) * 1_800_000 < ts <= half_hour(ts) * 1_800_000,
{
}

/// A tick is drawn exactly if its price and the brick are finite numbers above zero. One
/// that is not changes nothing but the count of ticks.
pub proof fn only_prices_are_drawn(g: RenkoGenerator, ts: i64, price: Double)
    requires
        g.initialized,
        half_hour(ts) <= g.last_recompute_period,
        g.tick_count < u32::MAX,
    ensures
        question(ticked(g, ts, price)) is Rung <==> price.finite() && price.positive()
            && g.brick_size.finite() && g.brick_size.positive(),
        !(question(ticked(g, ts, price)) is Rung) ==> ticked(g, ts, price) == (RenkoGenerator {
            tick_count: (g.tick_count + 1) as u32,
            stage: Stage::Idle,
            ..g
        }),
        ticked(g, ts, price).tick_count == g.tick_count + 1,
{
}

/// Event `k` answers a question for a brick.
pub open spec fn sizes_at(g: RenkoGenerator, events: Seq<Event>, k: int) -> bool {
    &&& question(played(g, events.take(k)).0) is Brick
    &&& events[k] matches Event::Answered { answer }
    &&& answer is Sized
}

/// Event `k` is the latest that answers a question for a brick.
pub open spec fn latest_sizing(g: RenkoGenerator, events: Seq<Event>, k: int) -> bool {
    sizes_at(g, events, k) && forall|j: int| k < j < events.len() ==> !#[trigger] sizes_at(
        g,
        events,
        j,
    )
}

/// A brick and its grid are those of the latest answer to a question for one, and the
/// half hour is that of the tick which asked.
pub open spec fn sized_last(
    g: RenkoGenerator,
    events: Seq<Event>,
    size: Double,
    grid: Double,
    period: int,
) -> bool {
    exists|k: int|
        0 <= k < events.len() && #[trigger] latest_sizing(g, events, k) && events[k]->answer->size
            == size && events[k]->answer->grid == grid && half_hour(
            question(played(g, events.take(k)).0)->ts,
        ) == period
}

/// Over any history, a started generator has the brick and the grid of the latest
/// answer to a question for one, and a bar has the brick of the latest such answer
/// before it.
pub proof fn bars_have_the_latest_brick(g: RenkoGenerator, events: Seq<Event>, answer: Answer)
    requires
        g.stage is Idle,
        !g.initialized,
    ensures
        ({
            let h = played(g, events).0;
            &&& h.initialized ==> sized_last(
                g,
                events,
                h.brick_size,
                h.grid_step,
                h.last_recompute_period as int,
            )
            &&& answered(h, answer).1 matches Some(bar) ==> bar.brick_size == h.brick_size
                && h.initialized
        }),
    decreases events.len(),
{
    consecutive_bars_connect(g, events);
    if events.len() > 0 {
        let head = events.drop_last();
        let n = head.len() as int;
        bars_have_the_latest_brick(g, head, answer);
        consecutive_bars_connect(g, head);
        let b = played(g, head).0;
        let h = played(g, events).0;
        assert(events.take(n) =~= head);
        assert forall|k: int| 0 <= k < n implies #[trigger] sizes_at(g, events, k) == sizes_at(
            g,
            head,
            k,
        ) by {
            assert(head.take(k) =~= events.take(k));
        }
        if sizes_at(g, events, n) {
            assert(latest_sizing(g, events, n));
        } else if b.initialized {
            let k = choose|k: int|
                0 <= k < head.len() && #[trigger] latest_sizing(g, head, k)
                    && head[k]->answer->size == b.brick_size && head[k]->answer->grid == b.grid_step
                    && half_hour(question(played(g, head.take(k)).0)->ts)
                    == b.last_recompute_period;
            assert(head.take(k) =~= events.take(k));
            assert(sizes_at(g, events, k));
            assert forall|j: int| k < j < events.len() implies !#[trigger] sizes_at(g, events, j) by {
                if j < n {
                    assert(!sizes_at(g, head, j));
                }
            }
            assert(latest_sizing(g, events, k));
        }
    }
}

/// Bars adjoin in time: each begins at the instant of the bar before it, lasts to that
/// of the tick which draws it, and has the time between as its duration, in 32 bits.
pub proof fn consecutive_bars_adjoin_in_time(g: RenkoGenerator, events: Seq<Event>)
    requires
        g.wf(),
    ensures
        forall|i: int|
            #![trigger played(g, events).1[i]]
            0 <= i < played(g, events).1.len() ==> played(g, events).1[i].duration_ms == (played(
                g,
                events,
            ).1[i].timestamp - played(g, events).1[i].open_ts) % 0x1_0000_0000,
        forall|i: int|
            #![trigger played(g, events).1[i]]
            0 < i < played(g, events).1.len() ==> played(g, events).1[i].open_ts == played(
                g,
                events,
            ).1[i - 1].timestamp,
        played(g, events).1.len() > 0 ==> played(g, events).0.bar_start_ts == played(
            g,
            events,
        ).1.last().timestamp,
    decreases events.len(),
{
    consecutive_bars_connect(g, events);
    if events.len() > 0 {
        consecutive_bars_connect(g, events.drop_last());
        consecutive_bars_adjoin_in_time(g, events.drop_last());
    }
}

/// A bar is drawn at the instant of its tick, towards that tick's price as far as it
/// was asked: upwards while bricks upwards are found, and downwards from where that
/// ends; a tick is settled only once a brick downwards was not found.
pub proof fn ticks_draw_up_and_down_to_the_end(g: RenkoGenerator, reached: bool, close: Double)
    requires
        g.wf(),
        question(g) is Rung,
        !close.nan(),
        !g.last_close.nan(),
    ensures
        ({
            let up = question(g)->up;
            let price = question(g)->Rung_price;
            let (h, bar) = answered(g, Answer::Stepped { reached, close });
            let advances = if up {
                g.last_close.below(close)
            } else {
                close.below(g.last_close)
            };
            &&& g.stage matches Stage::Draw { ts, bricks, .. }
            &&& bar is Some <==> reached && advances && bricks < 10_000
            &&& bar matches Some(b) ==> b.timestamp == ts && b.close == close && (b.direction == 1
                <==> up) && question(h) == (Ask::Rung { from: close, price, up })
            &&& bar is None && up ==> question(h) == (Ask::Rung {
                from: g.last_close,
                price,
                up: false,
            })
            &&& bar is None && !up ==> question(h) is Nothing
        }),
{
}

/// No tick draws more than ten thousand bars.
pub proof fn ticks_draw_a_bounded_number_of_bars(
    g: RenkoGenerator,
    caller: spec_fn(RenkoGenerator) -> Answer,
)
    requires
        g.wf(),
    ensures
        settled(g, caller).1.len() <= 10_000,
        g.stage matches Stage::Draw { bricks, .. } ==> settled(g, caller).1.len() + bricks <= 10_000,
    decreases steps_left(g),
{
    if fits(question(g), caller(g)) {
        let (h, bar) = answered(g, caller(g));
        ticks_end(g, caller(g));
        ticks_draw_a_bounded_number_of_bars(h, caller);
    }
}

/// Ticks that bars carry.
pub open spec fn carried(bars: Seq<RenkoBar>) -> int {
    tally::total(bars.len() as int, |i: int| bars[i].tick_count as int)
}

/// Ticks that came in.
pub open spec fn ticks_in(events: Seq<Event>) -> int
    decreases events.len(),
{
    if events.len() == 0 {
        0
    } else {
        ticks_in(events.drop_last()) + if events.last() is Tick {
            1int
        } else {
            0
        }
    }
}

proof fn lemma_carried_by_last(bars: Seq<RenkoBar>, bar: RenkoBar)
    ensures
        carried(bars.push(bar)) == carried(bars) + bar.tick_count,
{
    let all = bars.push(bar);
    tally::lemma_total_same(
        bars.len() as int,
        |i: int| all[i].tick_count as int,
        |i: int| bars[i].tick_count as int,
    );
}

/// Every tick is counted once: those that the bars carry and those still pending are
/// all that came in, once the first has its brick.
pub proof fn every_tick_is_counted_once(g: RenkoGenerator, events: Seq<Event>)
    requires
        g.stage is Idle,
        !g.initialized,
        g.tick_count == 0,
        orderly(g, events),
        events.len() < u32::MAX,
    ensures
        ({
            let (h, bars) = played(g, events);
            &&& h.initialized ==> carried(bars) + h.tick_count == ticks_in(events)
            &&& !h.initialized ==> bars.len() == 0 && ticks_in(events) == if h.stage is Start {
                1int
            } else {
                0
            }
            &&& h.stage matches Stage::Draw { first, .. } ==> first || h.tick_count == 0
            &&& h.stage is Idle || h.stage is Start || h.initialized
            &&& 0 <= carried(bars) && ticks_in(events) <= events.len()
        }),
    decreases events.len(),
{
    consecutive_bars_connect(g, events);
    if events.len() > 0 {
        let head = events.drop_last();
        let n = head.len() as int;
        assert(events.take(n) =~= head);
        assert forall|k: int|
            0 <= k < head.len() && (#[trigger] head[k]) is Tick implies played(
            g,
            head.take(k),
        ).0.stage is Idle by {
            assert(head.take(k) =~= events.take(k));
            assert(events[k] == head[k]);
        }
        every_tick_is_counted_once(g, head);
        consecutive_bars_connect(g, head);
        let (b, bars) = played(g, head);
        assert(events[n] == events.last());
        if let Event::Answered { answer } = events.last() {
            if let Some(bar) = answered(b, answer).1 {
                lemma_carried_by_last(bars, bar);
            }
        }
    }
}

/// After event `k` a tick at a price is drawn, or the generator has started at it.
pub open spec fn priced_at(g: RenkoGenerator, events: Seq<Event>, k: int, price: Double) -> bool {
    ||| starts_at(g, events, k, price)
    ||| played(g, events.take(k + 1)).0.stage matches Stage::Draw { price: p, bricks, .. } && p
        == price && bricks == 0
}

/// No bar is drawn after event `k`.
pub open spec fn no_bar_since(g: RenkoGenerator, events: Seq<Event>, k: int) -> bool {
    played(g, events.take(k + 1)).1.len() == played(g, events).1.len()
}

/// The prices since the last bar lie between the pending low and the pending high.
spec fn encloses(g: RenkoGenerator, events: Seq<Event>) -> bool {
    forall|k: int, p: Double|
        0 <= k < events.len() && #[trigger] priced_at(g, events, k, p) ==> encloses_at(
            g,
            events,
            k,
            p,
        )
}

spec fn encloses_at(g: RenkoGenerator, events: Seq<Event>, k: int, p: Double) -> bool {
    let h = played(g, events).0;
    &&& h.initialized
    &&& no_bar_since(g, events, k) && !p.nan() ==> h.pending_low.at_most(p) && p.at_most(
        h.pending_high,
    )
    &&& no_bar_since(g, events, k) ==> !drawn(h)
}

/// The tick at hand has drawn a bar.
spec fn drawn(h: RenkoGenerator) -> bool {
    match h.stage {
        Stage::Draw { bricks, .. } => bricks > 0,
        _ => false,
    }
}

proof fn lemma_bars_grow(g: RenkoGenerator, events: Seq<Event>, k: int)
    requires
        0 <= k <= events.len(),
    ensures
        played(g, events.take(k)).1.len() <= played(g, events).1.len(),
    decreases events.len(),
{
    if k < events.len() {
        lemma_bars_grow(g, events.drop_last(), k);
        assert(events.drop_last().take(k) =~= events.take(k));
    } else {
        assert(events.take(k) =~= events);
    }
}

proof fn lemma_prices_are_numbers(g: RenkoGenerator, events: Seq<Event>)
    requires
        g.stage is Idle,
        !g.initialized,
    ensures
        ({
            let h = played(g, events).0;
            &&& h.wf()
            &&& h.stage matches Stage::Draw { price, first, bricks, .. } ==> !price.nan() && (first
                || bricks > 0)
        }),
    decreases events.len(),
{
    if events.len() > 0 {
        lemma_prices_are_numbers(g, events.drop_last());
    }
}

proof fn lemma_encloses(g: RenkoGenerator, events: Seq<Event>)
    requires
        g.stage is Idle,
        !g.initialized,
    ensures
        encloses(g, events),
    decreases events.len(),
{
    if events.len() > 0 {
        let head = events.drop_last();
        let n = head.len() as int;
        assert(events.take(n) =~= head);
        assert(events.take(n + 1) =~= events);
        lemma_encloses(g, head);
        lemma_prices_are_numbers(g, head);
        let (b, before) = played(g, head);
        let (h, bars) = played(g, events);
        assert forall|k: int, p: Double|
            0 <= k < events.len() && #[trigger] priced_at(g, events, k, p) implies encloses_at(
            g,
            events,
            k,
            p,
        ) by {
            lemma_bars_grow(g, head, n);
            if k < n {
                assert(head.take(k) =~= events.take(k));
                assert(head.take(k + 1) =~= events.take(k + 1));
                lemma_bars_grow(g, head, k + 1);
                assert(priced_at(g, head, k, p));
                assert(encloses_at(g, head, k, p));
            } else if events.last() is Answered && b.stage is Draw {
                assert(head.take(n) =~= head);
                assert(priced_at(g, head, n - 1, b.stage->Draw_price) || drawn(b));
                assert(no_bar_since(g, head, n - 1));
            }
        }
    }
}

/// A tick comes in only when the one before it is settled.
pub open spec fn orderly(g: RenkoGenerator, events: Seq<Event>) -> bool {
    forall|k: int|
        0 <= k < events.len() && (#[trigger] events[k]) is Tick ==> played(g, events.take(k)).0.stage
            is Idle
}

/// Event `k` starts a generator at a price.
pub open spec fn starts_at(g: RenkoGenerator, events: Seq<Event>, k: int, price: Double) -> bool {
    match (played(g, events.take(k)).0.stage, events[k]) {
        (Stage::Start { price: p, .. }, Event::Answered { answer }) => p == price && answer is Sized,
        _ => false,
    }
}

/// A generator started at a price.
pub open spec fn started(g: RenkoGenerator, events: Seq<Event>, price: Double) -> bool {
    exists|k: int| 0 <= k < events.len() && #[trigger] starts_at(g, events, k, price)
}

/// Event `k` answers that at a price there is no brick in a direction.
pub open spec fn refuses_at(
    g: RenkoGenerator,
    events: Seq<Event>,
    k: int,
    price: Double,
    up: bool,
) -> bool {
    let before = played(g, events.take(k)).0;
    match (before.stage, events[k]) {
        (Stage::Draw { price: p, up: u, .. }, Event::Answered { answer }) => p == price && u == up
            && answer is Stepped && answered(before, answer).1 is None,
        _ => false,
    }
}

/// At a price a brick was asked for in a direction, and refused.
pub open spec fn refused(g: RenkoGenerator, events: Seq<Event>, price: Double, up: bool) -> bool {
    exists|k: int| 0 <= k < events.len() && #[trigger] refuses_at(g, events, k, price, up)
}

/// The ways in which an extreme of the prices since the last bar can be known.
pub open spec fn within(g: RenkoGenerator, events: Seq<Event>, x: Double, up: bool) -> bool {
    ||| x == played(g, events).0.last_close
    ||| started(g, events, x)
    ||| refused(g, events, x, up)
}

proof fn lemma_longer(g: RenkoGenerator, events: Seq<Event>, x: Double, up: bool)
    requires
        events.len() > 0,
    ensures
        started(g, events.drop_last(), x) ==> started(g, events, x),
        refused(g, events.drop_last(), x, up) ==> refused(g, events, x, up),
{
    let head = events.drop_last();
    assert forall|k: int| 0 <= k < head.len() implies #[trigger] head.take(k) == events.take(k) by {
        assert(head.take(k) =~= events.take(k));
    }
    if started(g, head, x) {
        let k = choose|k: int| 0 <= k < head.len() && #[trigger] starts_at(g, head, k, x);
        assert(head.take(k) == events.take(k));
        assert(starts_at(g, events, k, x));
    }
    if refused(g, head, x, up) {
        let k = choose|k: int| 0 <= k < head.len() && #[trigger] refuses_at(g, head, k, x, up);
        assert(head.take(k) == events.take(k));
        assert(refuses_at(g, events, k, x, up));
    }
}

/// The lowest and the highest price since the last bar are its close, the price at
/// which the generator started, or prices at which a brick downwards, or upwards,
/// was asked for and refused; or that of the tick at hand, of which it is still to
/// be asked.
proof fn lemma_extremes(g: RenkoGenerator, events: Seq<Event>)
    requires
        g.stage is Idle,
        !g.initialized,
        orderly(g, events),
    ensures
        ({
            let h = played(g, events).0;
            &&& h.wf()
            &&& h.initialized ==> {
                &&& within(g, events, h.pending_low, false) || (h.stage matches Stage::Draw {
                    price,
                    ..
                } && price == h.pending_low)
                &&& within(g, events, h.pending_high, true) || (h.stage matches Stage::Draw {
                    price,
                    up,
                    ..
                } && up && price == h.pending_high)
            }
        }),
    decreases events.len(),
{
    if events.len() > 0 {
        let head = events.drop_last();
        let n = head.len() as int;
        assert(events.take(n) =~= head);
        assert forall|k: int|
            0 <= k < head.len() && (#[trigger] head[k]) is Tick implies played(
            g,
            head.take(k),
        ).0.stage is Idle by {
            assert(head.take(k) =~= events.take(k));
            assert(events[k] == head[k]);
        }
        lemma_extremes(g, head);
        let b = played(g, head).0;
        let h = played(g, events).0;
        lemma_longer(g, events, b.pending_low, false);
        lemma_longer(g, events, b.pending_high, true);
        match (b.stage, events[n]) {
            (Stage::Start { price, .. }, Event::Answered { answer }) => {
                if answer is Sized {
                    assert(starts_at(g, events, n, price));
                }
            },
            (Stage::Draw { price, up, .. }, Event::Answered { answer }) => {
                if answer is Stepped && answered(b, answer).1 is None {
                    assert(refuses_at(g, events, n, price, up));
                }
            },
            _ => {},
        }
    }
}

/// Wicks hold no more than what was asked about. The low of an up bar is its open,
/// the price at which the generator started, or a price at which a brick
/// downwards was asked for and refused; it is that of the tick that draws the bar
/// only if that is not above the open. The high of a down bar is its open, the
/// starting price, or a price at which a brick upwards was asked for and refused.
pub proof fn wicks_end_where_bricks_were_refused(
    g: RenkoGenerator,
    events: Seq<Event>,
    answer: Answer,
)
    requires
        g.stage is Idle,
        !g.initialized,
        orderly(g, events),
    ensures
        ({
            let h = played(g, events).0;
            answered(h, answer).1 matches Some(bar) ==> {
                &&& bar.direction == 1 ==> {
                    ||| bar.low == bar.open
                    ||| started(g, events, bar.low)
                    ||| refused(g, events, bar.low, false)
                    ||| h.stage matches Stage::Draw { price, .. } && bar.low == price
                        && !bar.open.below(price)
                }
                &&& bar.direction == -1 ==> {
                    ||| bar.high == bar.open
                    ||| started(g, events, bar.high)
                    ||| refused(g, events, bar.high, true)
                }
            }
        }),
{
    lemma_extremes(g, events);
}

/// Wicks hold every price since the bar before: the low of an up bar is at most, and
/// the high of a down bar at least, the price of every tick that was drawn since the
/// last bar, and that at which the generator started.
pub proof fn wicks_hold_every_price_since_the_last_bar(
    g: RenkoGenerator,
    events: Seq<Event>,
    answer: Answer,
    k: int,
    price: Double,
)
    requires
        g.stage is Idle,
        !g.initialized,
        0 <= k < events.len(),
        priced_at(g, events, k, price),
        no_bar_since(g, events, k),
        !price.nan(),
    ensures
        answered(played(g, events).0, answer).1 matches Some(bar) ==> {
            &&& bar.direction == 1 ==> bar.low.at_most(price)
            &&& bar.direction == -1 ==> price.at_most(bar.high)
        },
{
    lemma_encloses(g, events);
    lemma_prices_are_numbers(g, events);
    assert(encloses_at(g, events, k, price));
}

/// The answer is to the question.
pub open spec fn fits(ask: Ask, a: Answer) -> bool {
    match ask {
        Ask::Brick { .. } => a is Sized,
        Ask::Rung { .. } => a is Stepped,
        Ask::Nothing => false,
    }
}

/// The generator once a caller has answered all that it asks, and the bars drawn.
pub open spec fn settled(g: RenkoGenerator, caller: spec_fn(RenkoGenerator) -> Answer) -> (
    RenkoGenerator,
    Seq<RenkoBar>,
)
    decreases steps_left(g),
{
    if g.wf() && fits(question(g), caller(g)) {
        let (h, bar) = answered(g, caller(g));
        let (r, bars) = settled(h, caller);
        (r, with_bar(Seq::empty(), bar) + bars)
    } else {
        (g, Seq::empty())
    }
}

/// The generator after a batch of ticks, each settled before the next comes in,
/// and the bars drawn.
pub open spec fn generated(
    g: RenkoGenerator,
    ticks: Seq<(i64, Double)>,
    caller: spec_fn(RenkoGenerator) -> Answer,
) -> (RenkoGenerator, Seq<RenkoBar>)
    decreases ticks.len(),
{
    if ticks.len() == 0 {
        (g, Seq::empty())
    } else {
        let (h, bars) = generated(g, ticks.drop_last(), caller);
        let (r, more) = settled(ticked(h, ticks.last().0, ticks.last().1), caller);
        (r, bars + more)
    }
}

/// Two batches give what their concatenation gives: the same generator, the
/// bars of the first and then those of the second, and bars and durations that
/// add up.
pub proof fn batches_concatenate(
    g: RenkoGenerator,
    x: Seq<(i64, Double)>,
    y: Seq<(i64, Double)>,
    caller: spec_fn(RenkoGenerator) -> Answer,
)
    ensures
        generated(g, x + y, caller).0 == generated(generated(g, x, caller).0, y, caller).0,
        generated(g, x + y, caller).1 == generated(g, x, caller).1 + generated(
            generated(g, x, caller).0,
            y,
            caller,
        ).1,
        generated(g, x + y, caller).0.n_bars - g.n_bars == (generated(g, x, caller).0.n_bars
            - g.n_bars) + (generated(generated(g, x, caller).0, y, caller).0.n_bars - generated(
            g,
            x,
            caller,
        ).0.n_bars),
        generated(g, x + y, caller).0.total_duration_ms - g.total_duration_ms == (generated(
            g,
            x,
            caller,
        ).0.total_duration_ms - g.total_duration_ms) + (generated(
            generated(g, x, caller).0,
            y,
            caller,
        ).0.total_duration_ms - generated(g, x, caller).0.total_duration_ms),
    decreases y.len(),
{
    let m = generated(g, x, caller).0;
    if y.len() == 0 {
        assert(x + y =~= x);
        assert(generated(g, x, caller).1 + Seq::empty() =~= generated(g, x, caller).1);
    } else {
        batches_concatenate(g, x, y.drop_last(), caller);
        assert((x + y).drop_last() =~= x + y.drop_last());
        let a = generated(m, y.drop_last(), caller);
        let b = settled(ticked(a.0, y.last().0, y.last().1), caller);
        assert(generated(g, x, caller).1 + a.1 + b.1 =~= generated(g, x, caller).1 + (a.1 + b.1));
    }
}

/// A generator that draws upwards, once it draws downwards instead.
pub open spec fn turned(g: RenkoGenerator) -> RenkoGenerator {
    match g.stage {
        Stage::Draw { ts, price, bricks, .. } => RenkoGenerator {
            stage: Stage::Draw { ts, price, up: false, first: true, bricks },
            ..g
        },
        _ => g,
    }
}

pub open spec fn draws_up(g: RenkoGenerator) -> bool {
    g.stage matches Stage::Draw { up, .. } && up
}

/// Bars never overshoot by a brick: where an up bar was just drawn, the caller
/// finds no brick downwards.
pub open spec fn never_overshoots(caller: spec_fn(RenkoGenerator) -> Answer) -> bool {
    forall|g: RenkoGenerator|
        #![trigger answered(g, caller(g))]
        draws_up(g) && answered(g, caller(g)).1 is Some ==> ({
            let back = turned(answered(g, caller(g)).0);
            answered(back, caller(back)).1 is None
        })
}

/// All bars have a direction.
pub open spec fn all_head(bars: Seq<RenkoBar>, direction: int) -> bool {
    forall|i: int| 0 <= i < bars.len() ==> (#[trigger] bars[i]).direction == direction
}

/// One tick draws bars of one direction only, unless bars overshoot.
pub proof fn ticks_draw_one_way(
    g: RenkoGenerator,
    ts: i64,
    price: Double,
    caller: spec_fn(RenkoGenerator) -> Answer,
)
    requires
        g.stage is Idle,
        never_overshoots(caller),
    ensures
        all_head(settled(ticked(g, ts, price), caller).1, 1) || all_head(
            settled(ticked(g, ts, price), caller).1,
            -1,
        ),
{
    let t = ticked(g, ts, price);
    if draws_up(t) {
        lemma_one_way(t, caller);
    } else if t.wf() && fits(question(t), caller(t)) {
        let (h, bar) = answered(t, caller(t));
        let rest = settled(h, caller).1;
        assert(bar is None);
        assert(with_bar(Seq::empty(), bar) + rest =~= rest);
        if draws_up(h) {
            lemma_one_way(h, caller);
        }
    }
}

proof fn lemma_one_way(g: RenkoGenerator, caller: spec_fn(RenkoGenerator) -> Answer)
    requires
        draws_up(g),
        never_overshoots(caller),
    ensures
        all_head(settled(g, caller).1, 1) || all_head(settled(g, caller).1, -1),
{
    if g.wf() && fits(question(g), caller(g)) {
        let (h, bar) = answered(g, caller(g));
        let rest = settled(h, caller).1;
        let first = with_bar(Seq::empty(), bar);
        assert(settled(g, caller).1 == first + rest);
        if bar is Some {
            lemma_goes_on_up(g, caller);
            assert(first =~= seq![bar->0]);
        } else {
            lemma_goes_down(h, caller);
            assert(first + rest =~= rest);
        }
    }
}

proof fn lemma_goes_down(g: RenkoGenerator, caller: spec_fn(RenkoGenerator) -> Answer)
    requires
        g.stage matches Stage::Draw { up, .. } && !up,
    ensures
        all_head(settled(g, caller).1, -1),
    decreases steps_left(g),
{
    if g.wf() && fits(question(g), caller(g)) {
        let (h, bar) = answered(g, caller(g));
        let rest = settled(h, caller).1;
        let first = with_bar(Seq::empty(), bar);
        assert(settled(g, caller).1 == first + rest);
        if bar is Some {
            ticks_end(g, caller(g));
            lemma_goes_down(h, caller);
            assert(first =~= seq![bar->0]);
        } else {
            assert(first + rest =~= Seq::empty());
        }
    }
}

/// What follows an up bar heads up.
proof fn lemma_goes_on_up(g: RenkoGenerator, caller: spec_fn(RenkoGenerator) -> Answer)
    requires
        g.wf(),
        draws_up(g),
        answered(g, caller(g)).1 is Some,
        never_overshoots(caller),
    ensures
        all_head(settled(answered(g, caller(g)).0, caller).1, 1),
    decreases steps_left(g),
{
    let h = answered(g, caller(g)).0;
    ticks_end(g, caller(g));
    if h.wf() && fits(question(h), caller(h)) {
        let (k, bar) = answered(h, caller(h));
        let rest = settled(k, caller).1;
        let first = with_bar(Seq::empty(), bar);
        assert(settled(h, caller).1 == first + rest);
        if bar is Some {
            lemma_goes_on_up(h, caller);
            assert(first =~= seq![bar->0]);
        } else {
            assert(k == turned(h));
            assert(answered(k, caller(k)).1 is None);
            let after = answered(k, caller(k)).0;
            assert(settled(after, caller).1.len() == 0);
            assert(settled(k, caller).1 =~= Seq::empty());
            assert(first + rest =~= Seq::empty());
        }
    }
}

/// Time that bars span in all.
pub open spec fn spanned(bars: Seq<RenkoBar>) -> int {
    tally::total(bars.len() as int, |i: int| bars[i].timestamp - bars[i].open_ts)
}

/// Every bar is counted, and its whole duration is added to the total, in 64
/// bits.
pub proof fn stats_count_every_bar(
    g: RenkoGenerator,
    ticks: Seq<(i64, Double)>,
    caller: spec_fn(RenkoGenerator) -> Answer,
)
    requires
        g.n_bars + generated(g, ticks, caller).1.len() <= usize::MAX,
    ensures
        generated(g, ticks, caller).0.n_bars == g.n_bars + generated(g, ticks, caller).1.len(),
        generated(g, ticks, caller).0.total_duration_ms == (g.total_duration_ms + spanned(
            generated(g, ticks, caller).1,
        )) % 0x1_0000_0000_0000_0000,
    decreases ticks.len(),
{
    let (r, all) = generated(g, ticks, caller);
    if ticks.len() > 0 {
        let (h, bars) = generated(g, ticks.drop_last(), caller);
        stats_count_every_bar(g, ticks.drop_last(), caller);
        let t = ticked(h, ticks.last().0, ticks.last().1);
        lemma_settled_counts(t, caller);
        lemma_spans_add_up(bars, settled(t, caller).1);
    }
}

proof fn lemma_spans_add_up(a: Seq<RenkoBar>, b: Seq<RenkoBar>)
    ensures
        spanned(a + b) == spanned(a) + spanned(b),
    decreases b.len(),
{
    if b.len() == 0 {
        assert(a + b =~= a);
    } else {
        let c = b.drop_last();
        lemma_spans_add_up(a, c);
        lemma_span_of_last(b);
        assert((a + b).drop_last() =~= a + c);
        lemma_span_of_last(a + b);
    }
}

proof fn lemma_span_of_last(b: Seq<RenkoBar>)
    requires
        b.len() > 0,
    ensures
        spanned(b) == spanned(b.drop_last()) + (b.last().timestamp - b.last().open_ts),
{
    let c = b.drop_last();
    tally::lemma_total_same(
        c.len() as int,
        |i: int| b[i].timestamp - b[i].open_ts,
        |i: int| c[i].timestamp - c[i].open_ts,
    );
}

proof fn lemma_settled_counts(g: RenkoGenerator, caller: spec_fn(RenkoGenerator) -> Answer)
    requires
        g.n_bars + settled(g, caller).1.len() <= usize::MAX,
    ensures
        settled(g, caller).0.n_bars == g.n_bars + settled(g, caller).1.len(),
        settled(g, caller).0.total_duration_ms == (g.total_duration_ms + spanned(
            settled(g, caller).1,
        )) % 0x1_0000_0000_0000_0000,
    decreases steps_left(g),
{
    if g.wf() && fits(question(g), caller(g)) {
        let (h, bar) = answered(g, caller(g));
        ticks_end(g, caller(g));
        let bars = settled(h, caller).1;
        let first = with_bar(Seq::empty(), bar);
        assert(settled(g, caller).1 == first + bars);
        lemma_settled_counts(h, caller);
        lemma_spans_add_up(first, bars);
        if bar is Some {
            lemma_span_of_last(first);
            assert(first.drop_last() =~= Seq::empty());
        }
    }
}

/// A bar has a wick on one side only: an up bar's high is its close and an up
/// bar's low is at most its open; a down bar's low is its close and its high is
/// at least its open.
pub proof fn wicks_are_one_sided(g: RenkoGenerator, a: Answer)
    requires
        !g.last_close.nan(),
    ensures
        answered(g, a).1 matches Some(bar) ==> {
            &&& bar.direction == 1 ==> bar.high == bar.close && bar.low.at_most(bar.open)
            &&& bar.direction == -1 ==> bar.low == bar.close && bar.open.at_most(bar.high)
            &&& bar.direction == 1 || bar.direction == -1
        },
{
}

/// A bar whose close is a number closes beyond its open, in its direction.
pub proof fn bars_advance(g: RenkoGenerator, a: Answer)
    requires
        !g.last_close.nan(),
    ensures
        answered(g, a).1 matches Some(bar) ==> !bar.close.nan() ==> {
            &&& bar.direction == 1 ==> bar.open.below(bar.close)
            &&& bar.direction == -1 ==> bar.close.below(bar.open)
        },
{
}

/// Ticks are neither lost nor counted twice: what a bar carries and what is
/// still pending add up to what was pending before.
pub proof fn ticks_are_conserved(g: RenkoGenerator, a: Answer)
    requires
        (match g.stage {
            Stage::Draw { first, .. } => first || g.tick_count == 0,
            Stage::Start { .. } => false,
            _ => true,
        }),
    ensures
        answered(g, a).0.tick_count + (match answered(g, a).1 {
            Some(bar) => bar.tick_count as int,
            None => 0,
        }) == g.tick_count,
        (match answered(g, a).0.stage {
            Stage::Draw { first, .. } => first || answered(g, a).0.tick_count == 0,
            Stage::Start { .. } => false,
            _ => true,
        }),
{
}

/// Answers that a tick may still take.
pub open spec fn steps_left(g: RenkoGenerator) -> int {
    match g.stage {
        Stage::Idle => 0,
        Stage::Draw { up, bricks, .. } => MAX_BRICKS_PER_TICK - bricks + 1 + if up {
            1int
        } else {
            0
        },
        Stage::Start { .. } => MAX_BRICKS_PER_TICK + 3,
        Stage::Resize { .. } => MAX_BRICKS_PER_TICK + 3,
    }
}

/// Every answer that was asked for brings a tick nearer to its end.
pub proof fn ticks_end(g: RenkoGenerator, a: Answer)
    requires
        g.wf(),
        fits(question(g), a),
    ensures
        0 <= steps_left(answered(g, a).0) < steps_left(g),
{
}

} // verus!
