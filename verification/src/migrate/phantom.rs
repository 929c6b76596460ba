//! Migrating series off fallback ids, which were hashed from a symbol, onto the
//! ids that the resolver gives.

use vstd::prelude::*;
use crate::migrate::shards;
use crate::tally;
use crate::text;

verus! {

/// A configured symbol with its fallback id and, where it resolves, its real one.
#[derive(Clone, Copy, Debug)]
pub struct SymbolIds {
    pub fallback: u64,
    pub resolved: Option<u64>,
}

/// A symbol is migrated when it resolves, and to another id than the fallback.
pub open spec fn changes(ids: Seq<SymbolIds>) -> spec_fn(int) -> bool {
    |i: int| ids[i].resolved is Some && ids[i].resolved->Some_0 != ids[i].fallback
}

/// Position, old and new id of each symbol to migrate.
pub open spec fn candidates_of(ids: Seq<SymbolIds>, n: int) -> Seq<(usize, u64, u64)> {
    tally::hits(n, changes(ids)).map_values(
        |i: int| (i as usize, ids[i].fallback, ids[i].resolved->Some_0),
    )
}

/// The symbols to migrate. One that does not resolve has no destination.
pub fn candidates(ids: &Vec<SymbolIds>) -> (out: Vec<(usize, u64, u64)>)
    ensures
        out@ == candidates_of(ids@, ids.len() as int),
{
    let mut out: Vec<(usize, u64, u64)> = Vec::new();
    assert(candidates_of(ids@, 0) =~= Seq::<(usize, u64, u64)>::empty());
    let mut i: usize = 0;
    while i < ids.len()
        invariant
            i <= ids.len(),
            out@ == candidates_of(ids@, i as int),
        decreases ids.len() - i,
    {
        let ghost was = out@;
        match ids[i].resolved {
            Some(id) if id != ids[i].fallback => {
                out.push((i, ids[i].fallback, id));
                assert(candidates_of(ids@, i + 1) =~= was.push((i, ids@[i as int].fallback, id)));
            },
            _ => {
                assert(candidates_of(ids@, i + 1) =~= was);
            },
        }
        i = i + 1;
    }
    out
}

/// Journal of this migration.
pub fn journal_path(data_root: &str) -> (p: String)
    ensures
        p@ == text::joined(text::joined(data_root@, "migrations"@), "phantom-ids.json"@),
{
    let dir = text::join_path(data_root, "migrations");
    text::join_path(dir.as_str(), "phantom-ids.json")
}

/// Directory of one tree of one ticker.
pub fn tree_dir(data_root: &str, subdir: &str, id: u64) -> (p: String)
    ensures
        p@ == shards::tree_text(data_root@, subdir@, id),
{
    shards::tree_dir(data_root, subdir, id)
}

/// Where a superseded shard of a tree is parked.
pub fn park_dir(data_root: &str, subdir: &str, old_id: u64) -> (p: String)
    ensures
        p@ == shards::tree_text(
            text::joined(text::joined(data_root@, "migrations"@), "superseded"@),
            subdir@,
            old_id,
        ),
{
    let a = text::join_path(data_root, "migrations");
    let b = text::join_path(a.as_str(), "superseded");
    shards::tree_dir(b.as_str(), subdir, old_id)
}

} // verus!
