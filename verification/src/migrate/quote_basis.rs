//! Rebasing stored series from a stablecoin quote onto the storage quote.
//!
//! A ticker id packs, from the top: instrument type (4 bits), base class (4),
//! base id (16), quote class (4), quote id (16), sub-type (20). Only the quote
//! bits change.

use vstd::prelude::*;
use crate::migrate::shards;
use crate::tally;
use crate::text;

verus! {

/// The storage quote.
pub const USD_QUOTE_CLASS: u64 = 3;

pub const USD_QUOTE_ID: u64 = 5001;

/// Stablecoin quotes, as class and id.
pub const USDC_QUOTE: (u64, u64) = (6, 18501);

pub const USDT_QUOTE: (u64, u64) = (6, 17601);

/// A tree written more recently than this is refused.
pub const RECENT_WRITE_SECS: u64 = 300;

/// `(quote_class, quote_id)` of a ticker id.
pub open spec fn quote_spec(id: u64) -> (u64, u64) {
    ((id >> 36) & 0xf, (id >> 20) & 0xffff)
}

/// `(quote_class, quote_id)` of a ticker id.
pub fn quote_of(id: u64) -> (q: (u64, u64))
    ensures
        q == quote_spec(id),
{
    ((id >> 36) & 0xf, (id >> 20) & 0xffff)
}

/// The same id with the storage quote.
pub open spec fn rebased(id: u64) -> u64 {
    (id & 0xffff_ff00_000f_ffffu64) | 0x31_3890_0000u64
}

/// The same id with the quote bits replaced by the storage quote.
pub fn rebase_to_usd(id: u64) -> (new_id: u64)
    ensures
        new_id == rebased(id),
{
    let keep: u64 = !((0xf_u64 << 36) | (0xffff_u64 << 20));
    assert(!((0xf_u64 << 36) | (0xffff_u64 << 20)) == 0xffff_ff00_000f_ffffu64) by (bit_vector);
    assert((3u64 << 36) | (5001u64 << 20) == 0x31_3890_0000u64) by (bit_vector);
    assert(((id & 0xffff_ff00_000f_ffffu64) | (3u64 << 36)) | (5001u64 << 20) == (id
        & 0xffff_ff00_000f_ffffu64) | ((3u64 << 36) | (5001u64 << 20))) by (bit_vector);
    (id & keep) | (USD_QUOTE_CLASS << 36) | (USD_QUOTE_ID << 20)
}

/// Rebasing sets the storage quote, keeps every other field, and changes
/// nothing the second time.
pub proof fn rebasing_changes_only_the_quote(id: u64)
    ensures
        quote_spec(rebased(id)) == (USD_QUOTE_CLASS, USD_QUOTE_ID),
        rebased(id) >> 60 == id >> 60,
        (rebased(id) >> 56) & 0xf == (id >> 56) & 0xf,
        (rebased(id) >> 40) & 0xffff == (id >> 40) & 0xffff,
        rebased(id) & 0xf_ffff == id & 0xf_ffff,
        rebased(rebased(id)) == rebased(id),
        rebased(id) == id <==> quote_spec(id) == (USD_QUOTE_CLASS, USD_QUOTE_ID),
{
    let r = (id & 0xffff_ff00_000f_ffffu64) | 0x31_3890_0000u64;
    assert((r >> 36) & 0xf == 3 && (r >> 20) & 0xffff == 5001) by (bit_vector)
        requires
            r == (id & 0xffff_ff00_000f_ffffu64) | 0x31_3890_0000u64,
    ;
    assert(r >> 60 == id >> 60 && (r >> 56) & 0xf == (id >> 56) & 0xf && (r >> 40) & 0xffff == (id
        >> 40) & 0xffff && r & 0xf_ffff == id & 0xf_ffff) by (bit_vector)
        requires
            r == (id & 0xffff_ff00_000f_ffffu64) | 0x31_3890_0000u64,
    ;
    assert((r & 0xffff_ff00_000f_ffffu64) | 0x31_3890_0000u64 == r) by (bit_vector)
        requires
            r == (id & 0xffff_ff00_000f_ffffu64) | 0x31_3890_0000u64,
    ;
    assert(r == id <==> ((id >> 36) & 0xf == 3 && (id >> 20) & 0xffff == 5001)) by (bit_vector)
        requires
            r == (id & 0xffff_ff00_000f_ffffu64) | 0x31_3890_0000u64,
    ;
}

/// Two ids rebase onto one exactly when they differ in their quote alone.
pub proof fn rebased_ids_collide_only_across_quotes(a: u64, b: u64)
    ensures
        rebased(a) == rebased(b) <==> a & 0xffff_ff00_000f_ffffu64 == b & 0xffff_ff00_000f_ffffu64,
{
    assert(((a & 0xffff_ff00_000f_ffffu64) | 0x31_3890_0000u64) == ((b & 0xffff_ff00_000f_ffffu64)
        | 0x31_3890_0000u64) <==> a & 0xffff_ff00_000f_ffffu64 == b & 0xffff_ff00_000f_ffffu64)
        by (bit_vector);
}

#[derive(Clone, Copy, Debug, PartialEq, Eq, Structural)]
pub enum QuoteFilter {
    All,
    Usdc,
    Usdt,
}

/// What to do when the destination already exists.
#[derive(Clone, Copy, Debug, PartialEq, Eq, Structural)]
pub enum CollisionMode {
    /// Leave the source alone and report it.
    Skip,
    /// Keep the destination and park the whole source.
    KeepDestination,
}

/// A path that a ticker owns on disk.
#[derive(Clone, Copy, Debug)]
pub struct SourcePath {
    pub is_dir: bool,
    /// Files directly inside, for a directory.
    pub files: u64,
    pub bytes: u64,
}

/// Bytes are there: a file, or a directory that is not empty.
pub open spec fn holds_bytes(p: SourcePath) -> bool {
    !p.is_dir || p.files > 0
}

/// Whether the destination holds bytes in any tree. An empty directory does not
/// collide.
pub fn collides(paths: &Vec<SourcePath>) -> (b: bool)
    ensures
        b <==> exists|i: int| 0 <= i < paths.len() && holds_bytes(#[trigger] paths@[i]),
{
    let mut i: usize = 0;
    while i < paths.len()
        invariant
            i <= paths.len(),
            forall|k: int| 0 <= k < i ==> !holds_bytes(#[trigger] paths@[k]),
        decreases paths.len() - i,
    {
        if !paths[i].is_dir || paths[i].files > 0 {
            assert(holds_bytes(paths@[i as int]));
            return true;
        }
        i = i + 1;
    }
    false
}

/// Whether anything was modified within the window. A time in the future counts.
pub fn written_within(mtimes_ns: &Vec<u128>, now_ns: u128, window_ns: u128) -> (b: bool)
    ensures
        b <==> exists|i: int|
            0 <= i < mtimes_ns.len() && recent(#[trigger] mtimes_ns@[i], now_ns, window_ns),
{
    let mut newest: Option<u128> = None;
    let mut i: usize = 0;
    while i < mtimes_ns.len()
        invariant
            i <= mtimes_ns.len(),
            newest is None ==> i == 0,
            newest matches Some(m) ==> (exists|k: int| 0 <= k < i && #[trigger] mtimes_ns@[k] == m)
                && forall|k: int| 0 <= k < i ==> #[trigger] mtimes_ns@[k] <= m,
        decreases mtimes_ns.len() - i,
    {
        let m: u128 = mtimes_ns[i];
        assert(mtimes_ns@[i as int] == m);
        newest = match newest {
            Some(n) if n >= m => Some(n),
            _ => Some(m),
        };
        i = i + 1;
    }
    match newest {
        Some(m) => {
            let hot = m > now_ns || now_ns - m < window_ns;
            proof {
                let k = choose|k: int| 0 <= k < mtimes_ns.len() && #[trigger] mtimes_ns@[k] == m;
                assert(hot == recent(mtimes_ns@[k], now_ns, window_ns));
            }
            hot
        },
        None => false,
    }
}

/// A modification time within the window before now, or after now.
pub open spec fn recent(mtime: u128, now: u128, window: u128) -> bool {
    mtime > now || now - mtime < window
}

/// A stored ticker, as found on disk.
#[derive(Clone, Copy, Debug)]
pub struct StoredTicker {
    pub id: u64,
    /// Files and bytes over all its trees.
    pub files: u64,
    pub bytes: u64,
    /// The storage-quoted twin holds bytes.
    pub twin_holds_bytes: bool,
}

/// A ticker to rebase.
#[derive(Clone, Copy, Debug, PartialEq, Eq, Structural)]
pub struct Candidate {
    pub old_id: u64,
    pub new_id: u64,
    pub quote: QuoteFilter,
    pub collides: bool,
    pub bytes: u64,
}

/// The stablecoin that an id is quoted in.
pub open spec fn stablecoin(id: u64) -> Option<QuoteFilter> {
    if quote_spec(id) == USDC_QUOTE {
        Some(QuoteFilter::Usdc)
    } else if quote_spec(id) == USDT_QUOTE {
        Some(QuoteFilter::Usdt)
    } else {
        None
    }
}

/// The ticker is in a stablecoin that the filter names, and has files.
pub open spec fn selected(t: StoredTicker, filter: QuoteFilter) -> bool {
    &&& stablecoin(t.id) is Some
    &&& filter == QuoteFilter::All || Some(filter) == stablecoin(t.id)
    &&& t.files > 0
}

pub open spec fn selects(stored: Seq<StoredTicker>, filter: QuoteFilter) -> spec_fn(int) -> bool {
    |i: int| selected(stored[i], filter)
}

pub open spec fn candidate_of(t: StoredTicker) -> Candidate {
    Candidate {
        old_id: t.id,
        new_id: rebased(t.id),
        quote: stablecoin(t.id)->Some_0,
        collides: t.twin_holds_bytes,
        bytes: t.bytes,
    }
}

pub open spec fn candidates_of(stored: Seq<StoredTicker>, filter: QuoteFilter, n: int) -> Seq<
    Candidate,
> {
    tally::hits(n, selects(stored, filter)).map_values(|i: int| candidate_of(stored[i]))
}

/// The tickers to rebase, in the order stored.
pub fn candidates(stored: &Vec<StoredTicker>, filter: QuoteFilter) -> (out: Vec<Candidate>)
    ensures
        out@ == candidates_of(stored@, filter, stored.len() as int),
{
    let mut out: Vec<Candidate> = Vec::new();
    assert(candidates_of(stored@, filter, 0) =~= Seq::<Candidate>::empty());
    let mut i: usize = 0;
    while i < stored.len()
        invariant
            i <= stored.len(),
            out@ == candidates_of(stored@, filter, i as int),
        decreases stored.len() - i,
    {
        let t = &stored[i];
        let (class, quote_id) = quote_of(t.id);
        let quote = if class == USDC_QUOTE.0 && quote_id == USDC_QUOTE.1 {
            Some(QuoteFilter::Usdc)
        } else if class == USDT_QUOTE.0 && quote_id == USDT_QUOTE.1 {
            Some(QuoteFilter::Usdt)
        } else {
            None
        };
        assert(quote == stablecoin(t.id));
        let ghost was = out@;
        let mut took = false;
        if let Some(q) = quote {
            if (filter == QuoteFilter::All || filter == q) && t.files > 0 {
                took = true;
                let c = Candidate {
                    old_id: t.id,
                    new_id: rebase_to_usd(t.id),
                    quote: q,
                    collides: t.twin_holds_bytes,
                    bytes: t.bytes,
                };
                out.push(c);
                assert(candidates_of(stored@, filter, i + 1) =~= was.push(c));
            }
        }
        if !took {
            assert(candidates_of(stored@, filter, i + 1) =~= was);
        }
        i = i + 1;
    }
    out
}

/// A candidate always moves: its id changes, and onto the storage quote.
pub proof fn candidates_move_onto_the_storage_quote(t: StoredTicker, filter: QuoteFilter)
    requires
        selected(t, filter),
    ensures
        candidate_of(t).new_id != candidate_of(t).old_id,
        quote_spec(candidate_of(t).new_id) == (USD_QUOTE_CLASS, USD_QUOTE_ID),
        stablecoin(candidate_of(t).new_id) is None,
{
    rebasing_changes_only_the_quote(t.id);
}

/// What to do with a candidate.
#[derive(Clone, Copy, Debug, PartialEq, Eq, Structural)]
pub enum Action {
    /// Parked by an earlier run.
    AlreadyParked,
    /// The source is still being written.
    Refuse,
    /// The destination exists and is not to be touched.
    Skip,
    /// Park the whole source.
    Park,
    /// Move tree by tree.
    Migrate,
}

/// Decides on a whole ticker, never on single dates: no series can end up half
/// under one quote and half under the other.
pub fn plan_candidate(parked: bool, hot: bool, collides: bool, mode: CollisionMode) -> (a: Action)
    ensures
        a == if parked {
            Action::AlreadyParked
        } else if hot {
            Action::Refuse
        } else if !collides {
            Action::Migrate
        } else if mode == CollisionMode::Skip {
            Action::Skip
        } else {
            Action::Park
        },
{
    if parked {
        Action::AlreadyParked
    } else if hot {
        Action::Refuse
    } else if !collides {
        Action::Migrate
    } else {
        match mode {
            CollisionMode::Skip => Action::Skip,
            CollisionMode::KeepDestination => Action::Park,
        }
    }
}

/// Journal of this migration.
pub fn journal_path(data_root: &str) -> (p: String)
    ensures
        p@ == text::joined(text::joined(data_root@, "migrations"@), "quote-basis.json"@),
{
    let dir = text::join_path(data_root, "migrations");
    text::join_path(dir.as_str(), "quote-basis.json")
}

/// Directory of one tree of one ticker.
pub fn tree_dir(data_root: &str, subdir: &str, id: u64) -> (p: String)
    ensures
        p@ == shards::tree_text(data_root@, subdir@, id),
{
    shards::tree_dir(data_root, subdir, id)
}

/// Where a parked path goes: `<root>/migrations/superseded/<run>/<old id>/<tree>/<name>`.
pub fn park_path(data_root: &str, run: &str, old_id: u64, tree: &str, name: &str) -> (p: String)
    ensures
        p@ == text::joined(
            text::joined(
                text::joined(
                    text::joined(
                        text::joined(text::joined(data_root@, "migrations"@), "superseded"@),
                        run@,
                    ),
                    text::decimal(old_id as int),
                ),
                tree@,
            ),
            name@,
        ),
{
    let a = text::join_path(data_root, "migrations");
    let b = text::join_path(a.as_str(), "superseded");
    let c = text::join_path(b.as_str(), run);
    let d = text::join_path(c.as_str(), text::decimal_string(old_id).as_str());
    let e = text::join_path(d.as_str(), tree);
    text::join_path(e.as_str(), name)
}

/// Position of the first slash.
pub open spec fn slash_at(s: Seq<char>, k: int) -> bool {
    0 <= k < s.len() && s[k] == '/' && forall|j: int| 0 <= j < k ==> s[j] != '/'
}

/// The pair whose base leg is that of the first name with a slash, quoted in
/// USD; without one, the id.
pub open spec fn symbol_is(names: Seq<Seq<char>>, new_id: u64, symbol: Seq<char>) -> bool {
    if exists|i: int| 0 <= i < names.len() && (#[trigger] names[i]).contains('/') {
        exists|i: int, k: int|
            0 <= i < names.len() && #[trigger] slash_at(names[i], k) && (forall|j: int|
                0 <= j < i ==> !(#[trigger] names[j]).contains('/')) && symbol == names[i].take(k)
                + "/USD"@
    } else {
        symbol == text::decimal(new_id as int)
    }
}

fn first_slash(s: &str) -> (k: Option<usize>)
    ensures
        match k {
            Some(k) => slash_at(s@, k as int),
            None => !s@.contains('/'),
        },
{
    let n: usize = s.unicode_len();
    let mut i: usize = 0;
    while i < n
        invariant
            i <= n,
            n == s@.len(),
            forall|j: int| 0 <= j < i ==> s@[j] != '/',
        decreases n - i,
    {
        if s.get_char(i) == '/' {
            return Some(i);
        }
        i = i + 1;
    }
    None
}

/// Symbol for the destination manifest, from the tickers named in the source
/// manifests.
pub fn symbol_for(names: &Vec<String>, new_id: u64) -> (symbol: String)
    ensures
        symbol_is(text::texts(names@), new_id, symbol@),
{
    let mut i: usize = 0;
    while i < names.len()
        invariant
            i <= names.len(),
            forall|j: int| 0 <= j < i ==> !(#[trigger] text::texts(names@)[j]).contains('/'),
        decreases names.len() - i,
    {
        let s = names[i].as_str();
        if let Some(k) = first_slash(s) {
            let mut symbol: String = s.substring_char(0, k).to_owned();
            symbol.append("/USD");
            proof {
                let t = text::texts(names@);
                assert(t[i as int] == s@);
                assert(s@.subrange(0, k as int) =~= t[i as int].take(k as int));
                assert(t[i as int][k as int] == '/');
                assert(slash_at(t[i as int], k as int));
            }
            return symbol;
        }
        assert(text::texts(names@)[i as int] == s@);
        i = i + 1;
    }
    text::decimal_string(new_id)
}

} // verus!
