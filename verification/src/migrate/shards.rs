//! Moving the shards of one tree of one ticker.

use vstd::prelude::*;
use crate::calendar::Date;
use crate::tally;
use crate::text;

verus! {

/// How far a unit of work has come.
#[derive(Clone, Copy, Debug, PartialEq, Eq, Structural)]
pub enum UnitState {
    /// Every shard moved.
    Done,
    /// Everything but the live shard moved; to be finished after rotation.
    PartialToday,
    /// The destination stays; the whole source was parked.
    Parked,
}

/// What to do with the shards of a tree.
#[derive(Debug)]
pub enum TreePlan {
    /// There is nothing.
    Nothing,
    /// Only live shards: leave the tree for the next run.
    Defer,
    /// Move the listed shards; `held` live ones stay.
    Move { movable: Vec<usize>, held: usize },
}

/// The shard is closed: it is dated before today. A live shard is never touched.
pub open spec fn closed(dates: Seq<Date>, today: Date) -> spec_fn(int) -> bool {
    |i: int| dates[i].precedes(today)
}

pub open spec fn positions(v: Seq<usize>) -> Seq<int> {
    v.map_values(|i: usize| i as int)
}

/// Plans a tree from the dates of its shards.
pub fn plan_tree(dates: &Vec<Date>, today: Date) -> (plan: TreePlan)
    ensures
        ({
            let n = dates.len() as int;
            let moving = tally::hits(n, closed(dates@, today));
            match plan {
                TreePlan::Nothing => n == 0,
                TreePlan::Defer => n > 0 && moving.len() == 0,
                TreePlan::Move { movable, held } => moving.len() > 0 && positions(movable@) == moving
                    && held == n - moving.len(),
            }
        }),
{
    let n: usize = dates.len();
    if n == 0 {
        return TreePlan::Nothing;
    }
    let mut movable: Vec<usize> = Vec::new();
    assert(positions(movable@) =~= tally::hits(0, closed(dates@, today)));
    let mut i: usize = 0;
    while i < n
        invariant
            i <= n,
            n == dates.len(),
            positions(movable@) == tally::hits(i as int, closed(dates@, today)),
            movable.len() <= i,
        decreases n - i,
    {
        if dates[i].before(today) {
            let ghost was = movable@;
            movable.push(i);
            assert(positions(movable@) =~= positions(was).push(i as int));
        }
        i = i + 1;
    }
    assert(movable@.len() == positions(movable@).len());
    if movable.len() == 0 {
        return TreePlan::Defer;
    }
    let held: usize = n - movable.len();
    TreePlan::Move { movable, held }
}

/// No plan ever moves a shard dated today or later.
pub proof fn live_shards_stay(dates: Seq<Date>, today: Date, k: int)
    requires
        0 <= k < tally::hits(dates.len() as int, closed(dates, today)).len(),
    ensures
        dates[tally::hits(dates.len() as int, closed(dates, today))[k]].precedes(today),
{
    tally::lemma_hits(dates.len() as int, closed(dates, today));
    let h = tally::hits(dates.len() as int, closed(dates, today));
    assert(closed(dates, today)(h[k]));
}

/// Every shard dated before today is planned to move.
pub proof fn closed_shards_move(dates: Seq<Date>, today: Date, i: int)
    requires
        0 <= i < dates.len(),
        dates[i].precedes(today),
    ensures
        tally::hits(dates.len() as int, closed(dates, today)).contains(i),
{
    tally::lemma_hits(dates.len() as int, closed(dates, today));
    assert(closed(dates, today)(i));
}

/// What is done about a tree.
#[derive(Debug)]
pub enum TreeAction {
    /// There is nothing to do.
    Nothing,
    /// Leave the live shards for the next run.
    Defer,
    /// Say what would move, and touch nothing.
    Report { movable: Vec<usize>, held: usize },
    Move { movable: Vec<usize>, held: usize },
}

/// Decides on a tree: shards move only where the plan is applied.
pub fn tree_action(plan: TreePlan, apply: bool) -> (a: TreeAction)
    ensures
        a == (match plan {
            TreePlan::Nothing => TreeAction::Nothing,
            TreePlan::Defer => TreeAction::Defer,
            TreePlan::Move { movable, held } => if apply {
                TreeAction::Move { movable, held }
            } else {
                TreeAction::Report { movable, held }
            },
        }),
        !apply ==> !(a is Move),
{
    match plan {
        TreePlan::Nothing => TreeAction::Nothing,
        TreePlan::Defer => TreeAction::Defer,
        TreePlan::Move { movable, held } => if apply {
            TreeAction::Move { movable, held }
        } else {
            TreeAction::Report { movable, held }
        },
    }
}

/// What is done about a unit that moves as a whole.
#[derive(Clone, Copy, Debug, PartialEq, Eq, Structural)]
pub enum UnitAction {
    Nothing,
    /// Say what would happen, and touch nothing.
    Report,
    Perform,
}

/// Decides on a unit: nothing is done where it is absent, and nothing is touched
/// unless the plan is applied.
pub fn unit_action(present: bool, apply: bool) -> (a: UnitAction)
    ensures
        a == if !present {
            UnitAction::Nothing
        } else if apply {
            UnitAction::Perform
        } else {
            UnitAction::Report
        },
{
    if !present {
        UnitAction::Nothing
    } else if apply {
        UnitAction::Perform
    } else {
        UnitAction::Report
    }
}

/// State of a tree whose closed shards have all moved.
pub fn moved_state(held: usize) -> (s: UnitState)
    ensures
        s == if held == 0 {
            UnitState::Done
        } else {
            UnitState::PartialToday
        },
{
    if held == 0 {
        UnitState::Done
    } else {
        UnitState::PartialToday
    }
}

/// What a shard must keep across a move.
#[derive(Clone, Copy, Debug, PartialEq, Eq, Structural)]
pub struct Fingerprint {
    pub date: Date,
    pub records: u64,
    pub first_ts: i64,
    pub last_ts: i64,
}

/// Shard `i` changed on the way: some shard of its date arrived, and the one
/// that arrived last differs. A shard that was parked has no counterpart.
pub open spec fn damaged(before: Seq<Fingerprint>, after: Seq<Fingerprint>, i: int) -> bool {
    arrived(after, before[i].date, after.len() as int) matches Some(a) && a != before[i]
}

/// The latest of the first `n` fingerprints with the given date.
pub open spec fn arrived(after: Seq<Fingerprint>, date: Date, n: int) -> Option<Fingerprint>
    decreases n,
{
    if n <= 0 {
        None
    } else if after[n - 1].date == date {
        Some(after[n - 1])
    } else {
        arrived(after, date, n - 1)
    }
}

/// What arrived under a date is the last that has it; nothing did if none has it.
pub proof fn last_arrivals_count(after: Seq<Fingerprint>, date: Date, n: int)
    requires
        0 <= n <= after.len(),
    ensures
        arrived(after, date, n) is None <==> forall|i: int|
            0 <= i < n ==> (#[trigger] after[i]).date != date,
        arrived(after, date, n) matches Some(a) ==> a.date == date && exists|i: int|
            0 <= i < n && (#[trigger] after[i]) == a && forall|j: int|
                i < j < n ==> (#[trigger] after[j]).date != date,
    decreases n,
{
    if n > 0 {
        last_arrivals_count(after, date, n - 1);
        assert(after[n - 1] == after[n - 1]);
    }
}

fn find_arrived(after: &Vec<Fingerprint>, date: Date) -> (r: Option<Fingerprint>)
    ensures
        r == arrived(after@, date, after.len() as int),
{
    let mut n: usize = after.len();
    while n > 0
        invariant
            n <= after.len(),
            arrived(after@, date, after.len() as int) == arrived(after@, date, n as int),
        decreases n,
    {
        if after[n - 1].date == date {
            return Some(after[n - 1]);
        }
        n = n - 1;
    }
    None
}

/// Compares the shards before and after a move. Gives the first that changed.
pub fn verify_move(before: &Vec<Fingerprint>, after: &Vec<Fingerprint>) -> (bad: Option<usize>)
    ensures
        match bad {
            Some(i) => i < before.len() && damaged(before@, after@, i as int) && forall|k: int|
                0 <= k < i ==> !#[trigger] damaged(before@, after@, k),
            None => forall|k: int| 0 <= k < before.len() ==> !#[trigger] damaged(before@, after@, k),
        },
{
    let mut i: usize = 0;
    while i < before.len()
        invariant
            i <= before.len(),
            forall|k: int| 0 <= k < i ==> !#[trigger] damaged(before@, after@, k),
        decreases before.len() - i,
    {
        let found = find_arrived(after, before[i].date);
        if let Some(a) = found {
            if a != before[i] {
                assert(damaged(before@, after@, i as int));
                return Some(i);
            }
        }
        assert(!damaged(before@, after@, i as int));
        i = i + 1;
    }
    None
}

/// Where the series of an id lies: `<root>/<subdir>/<id>`.
pub open spec fn tree_text(root: Seq<char>, subdir: Seq<char>, id: u64) -> Seq<char> {
    text::joined(text::joined(root, subdir), text::decimal(id as int))
}

/// Directory of one tree of one ticker.
pub fn tree_dir(data_root: &str, subdir: &str, id: u64) -> (p: String)
    ensures
        p@ == tree_text(data_root@, subdir@, id),
{
    let base = text::join_path(data_root, subdir);
    text::join_path(base.as_str(), text::decimal_string(id).as_str())
}

/// Journal key of a unit: owner, bar, unit.
pub fn journal_key(owner: &str, unit: &str) -> (k: String)
    ensures
        k@ == owner@ + seq!['|'] + unit@,
{
    let mut k: String = owner.to_owned();
    k.append("|");
    proof {
        reveal_strlit("|");
        assert("|"@ =~= seq!['|']);
    }
    k.append(unit);
    k
}

/// Name of a tree's unit: `<subdir>.<ext>`.
pub fn tree_unit(subdir: &str, ext: &str) -> (u: String)
    ensures
        u@ == subdir@ + seq!['.'] + ext@,
{
    let mut u: String = subdir.to_owned();
    u.append(".");
    proof {
        reveal_strlit(".");
        assert("."@ =~= seq!['.']);
    }
    u.append(ext);
    u
}

/// What one unit came to.
#[derive(Clone, Copy, Debug, PartialEq, Eq, Structural)]
pub enum UnitOutcome {
    /// Nothing was there, or this is a dry run.
    Nothing,
    Reached(UnitState),
    Failed,
}

/// A unit is worked on unless the journal has it finished.
pub open spec fn is_wanted(journaled: Option<UnitState>) -> bool {
    journaled != Some(UnitState::Done)
}

/// Whether a unit is worked on: a finished one never is again.
pub fn wanted(journaled: Option<UnitState>) -> (b: bool)
    ensures
        b == is_wanted(journaled),
{
    match journaled {
        Some(UnitState::Done) => false,
        _ => true,
    }
}

/// Journal entry after a unit was worked on.
pub open spec fn entry_after(
    journaled: Option<UnitState>,
    outcome: UnitOutcome,
    apply: bool,
) -> Option<UnitState> {
    match outcome {
        UnitOutcome::Reached(s) if apply => Some(s),
        _ => journaled,
    }
}

/// Journal entry of a unit after it was worked on. Dry runs journal nothing, and
/// a failure leaves what stood there.
pub fn journal_after(
    journaled: Option<UnitState>,
    outcome: UnitOutcome,
    apply: bool,
) -> (entry: Option<UnitState>)
    ensures
        entry == entry_after(journaled, outcome, apply),
{
    match outcome {
        UnitOutcome::Reached(s) => if apply {
            Some(s)
        } else {
            journaled
        },
        _ => journaled,
    }
}

/// Runs can be repeated: a finished unit is not worked on again, an unfinished
/// one is; a dry run, and a failure, leave the journal as it was.
pub proof fn runs_are_resumable(journaled: Option<UnitState>, outcome: UnitOutcome)
    ensures
        !is_wanted(entry_after(journaled, UnitOutcome::Reached(UnitState::Done), true)),
        is_wanted(entry_after(journaled, UnitOutcome::Reached(UnitState::PartialToday), true)),
        entry_after(journaled, outcome, false) == journaled,
        entry_after(journaled, UnitOutcome::Failed, true) == journaled,
{
}

/// What a migration does with a shard whose date the destination has.
#[derive(Clone, Copy, Debug, PartialEq, Eq, Structural)]
pub enum OnExisting {
    /// Keep the destination and park the source.
    Park,
    /// Stop: two series must not be interleaved.
    Abort,
}

/// What happens to one shard.
#[derive(Clone, Copy, Debug, PartialEq, Eq, Structural)]
pub enum ShardAction {
    Move,
    Park,
    Abort,
}

/// Decides on one shard. Nothing is overwritten and nothing deleted.
pub fn place_shard(destination_exists: bool, rule: OnExisting) -> (a: ShardAction)
    ensures
        a == if !destination_exists {
            ShardAction::Move
        } else if rule == OnExisting::Park {
            ShardAction::Park
        } else {
            ShardAction::Abort
        },
{
    if !destination_exists {
        ShardAction::Move
    } else {
        match rule {
            OnExisting::Park => ShardAction::Park,
            OnExisting::Abort => ShardAction::Abort,
        }
    }
}

pub open spec fn is_partial(states: Seq<UnitState>) -> spec_fn(int) -> bool {
    |i: int| states[i] == UnitState::PartialToday
}

/// Units that wait for rotation.
pub fn count_deferred(states: &Vec<UnitState>) -> (n: usize)
    ensures
        n == tally::count(states.len() as int, is_partial(states@)),
{
    let mut n: usize = 0;
    let mut i: usize = 0;
    while i < states.len()
        invariant
            i <= states.len(),
            n == tally::count(i as int, is_partial(states@)),
            n <= i,
        decreases states.len() - i,
    {
        if states[i] == UnitState::PartialToday {
            n = n + 1;
        }
        i = i + 1;
    }
    n
}

} // verus!
