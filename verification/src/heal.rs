//! Repair of index shards: what a run does with its result.

use vstd::prelude::*;

verus! {

/// What happens to the repaired shards.
#[derive(Clone, Copy, Debug, PartialEq, Eq, Structural)]
pub enum HealMode {
    /// They are written beside the shards in use.
    Stage,
    /// They are only counted.
    DryRun,
    /// They take the place of the shards in use.
    Commit,
}

/// A run cannot both commit and only count.
#[derive(Clone, Copy, Debug, PartialEq, Eq, Structural)]
pub struct ModesConflict;

/// The mode that two flags ask for.
pub fn heal_mode(commit: bool, dry_run: bool) -> (r: Result<HealMode, ModesConflict>)
    ensures
        r is Err <==> commit && dry_run,
        r matches Ok(m) ==> m == (if commit {
            HealMode::Commit
        } else if dry_run {
            HealMode::DryRun
        } else {
            HealMode::Stage
        }),
{
    if commit && dry_run {
        Err(ModesConflict)
    } else if commit {
        Ok(HealMode::Commit)
    } else if dry_run {
        Ok(HealMode::DryRun)
    } else {
        Ok(HealMode::Stage)
    }
}

} // verus!
