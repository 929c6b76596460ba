//! Counting, summing and collecting over index ranges, and sorting by key.

use vstd::prelude::*;

verus! {

/// How many `i` in `0..n` satisfy `p`.
pub open spec fn count(n: int, p: spec_fn(int) -> bool) -> nat
    decreases n,
{
    if n <= 0 {
        0
    } else {
        count(n - 1, p) + if p(n - 1) {
            1nat
        } else {
            0
        }
    }
}

/// The `i` in `0..n` that satisfy `p`, ascending.
pub open spec fn hits(n: int, p: spec_fn(int) -> bool) -> Seq<int>
    decreases n,
{
    if n <= 0 {
        Seq::empty()
    } else if p(n - 1) {
        hits(n - 1, p).push(n - 1)
    } else {
        hits(n - 1, p)
    }
}

/// Sum of `f(i)` over `0..n`.
pub open spec fn total(n: int, f: spec_fn(int) -> int) -> int
    decreases n,
{
    if n <= 0 {
        0
    } else {
        total(n - 1, f) + f(n - 1)
    }
}

/// At most the first `cap` elements.
pub open spec fn capped<T>(s: Seq<T>, cap: int) -> Seq<T> {
    if s.len() <= cap {
        s
    } else {
        s.take(cap)
    }
}

/// `e` when `b` holds, else nothing.
pub open spec fn when<T>(b: bool, e: T) -> Seq<T> {
    if b {
        seq![e]
    } else {
        Seq::empty()
    }
}

/// `x` is in a list.
#[verifier::opaque]
pub open spec fn among<T>(s: Seq<T>, x: T) -> bool {
    s.contains(x)
}

/// What is in a list after `e` was added when `b` holds.
pub broadcast proof fn lemma_when<T>(s: Seq<T>, b: bool, e: T, x: T)
    ensures
        #[trigger] among(s + when(b, e), x) <==> among(s, x) || (b && x == e),
{
    reveal(among);
    let t = s + when(b, e);
    if s.contains(x) {
        let i = choose|i: int| 0 <= i < s.len() && s[i] == x;
        assert(t[i] == x);
    }
    if b && x == e {
        assert(t[s.len() as int] == x);
    }
    if t.contains(x) {
        let i = choose|i: int| 0 <= i < t.len() && t[i] == x;
        if i < s.len() {
            assert(s[i] == x);
        }
    }
}

/// Adds `e` when `b` holds.
pub fn push_when<T>(out: &mut Vec<T>, b: bool, e: T)
    ensures
        final(out)@ == old(out)@ + when(b, e),
{
    if b {
        out.push(e);
    }
    assert(out@ =~= old(out)@ + when(b, e));
}

pub proof fn lemma_count_bounds(n: int, p: spec_fn(int) -> bool)
    requires
        n >= 0,
    ensures
        0 <= count(n, p) <= n,
        count(n, p) == hits(n, p).len(),
    decreases n,
{
    if n > 0 {
        lemma_count_bounds(n - 1, p);
    }
}

/// A count is zero exactly when nothing satisfies the predicate.
pub proof fn lemma_count_zero(n: int, p: spec_fn(int) -> bool)
    requires
        n >= 0,
    ensures
        count(n, p) == 0 <==> forall|i: int| 0 <= i < n ==> !#[trigger] p(i),
    decreases n,
{
    if n > 0 {
        lemma_count_zero(n - 1, p);
        if count(n, p) == 0 {
            assert(!p(n - 1));
            assert forall|i: int| 0 <= i < n implies !#[trigger] p(i) by {
                if i < n - 1 {
                }
            }
        }
    }
}

/// A predicate that agrees on the range counts the same.
pub proof fn lemma_count_same(n: int, p: spec_fn(int) -> bool, q: spec_fn(int) -> bool)
    requires
        forall|i: int| 0 <= i < n ==> #[trigger] p(i) == q(i),
    ensures
        count(n, p) == count(n, q),
        hits(n, p) == hits(n, q),
    decreases n,
{
    if n > 0 {
        lemma_count_same(n - 1, p, q);
    }
}

/// Every hit is in range and satisfies the predicate; hits ascend.
pub proof fn lemma_hits(n: int, p: spec_fn(int) -> bool)
    requires
        n >= 0,
    ensures
        forall|k: int| 0 <= k < hits(n, p).len() ==> 0 <= #[trigger] hits(n, p)[k] < n && p(hits(n, p)[k]),
        forall|k: int, l: int| 0 <= k < l < hits(n, p).len() ==> #[trigger] hits(n, p)[k] < #[trigger] hits(n, p)[l],
        forall|i: int| 0 <= i < n && p(i) ==> #[trigger] hits(n, p).contains(i),
    decreases n,
{
    if n > 0 {
        lemma_hits(n - 1, p);
        let h0 = hits(n - 1, p);
        let h = hits(n, p);
        assert forall|i: int| 0 <= i < n && p(i) implies #[trigger] h.contains(i) by {
            if i == n - 1 {
                assert(h[h0.len() as int] == n - 1);
            } else {
                assert(h0.contains(i));
                let k = choose|k: int| 0 <= k < h0.len() && h0[k] == i;
                assert(h[k] == i);
            }
        }
    }
}

/// Ascending order of `(key, position)` pairs.
pub open spec fn pair_le(a: (i64, usize), b: (i64, usize)) -> bool {
    a.0 < b.0 || (a.0 == b.0 && a.1 <= b.1)
}

/// Sorts pairs with `slice::sort_unstable`, whose order on tuples is
/// lexicographic. Claimed: the result holds the same pairs, ascending.
#[verifier::external_body]
pub(crate) fn sort_pairs(v: &mut Vec<(i64, usize)>)
    ensures
        final(v)@.to_multiset() == old(v)@.to_multiset(),
        final(v)@.len() == old(v)@.len(),
        forall|i: int, j: int| 0 <= i < j < final(v)@.len() ==> pair_le(#[trigger] final(v)@[i], #[trigger] final(v)@[j]),
{
    v.sort_unstable()
}

/// The positions `order` list `keys` in ascending order, earlier positions
/// first among equal keys: a stable sort.
pub open spec fn stable_order(keys: Seq<i64>, order: Seq<usize>) -> bool {
    &&& order.len() == keys.len()
    &&& forall|i: int| 0 <= i < order.len() ==> (#[trigger] order[i]) < keys.len()
    &&& forall|i: int, j: int|
        0 <= i < j < order.len() ==> {
            let a = #[trigger] order[i] as int;
            let b = #[trigger] order[j] as int;
            keys[a] < keys[b] || (keys[a] == keys[b] && a < b)
        }
}

/// A stable order lists every position.
pub proof fn lemma_stable_order_covers(keys: Seq<i64>, order: Seq<usize>)
    requires
        stable_order(keys, order),
    ensures
        forall|p: usize| p < keys.len() ==> #[trigger] order.contains(p),
{
    let as_ints = order.map_values(|x: usize| x as int);
    assert(as_ints.no_duplicates()) by {
        assert forall|i: int, j: int| 0 <= i < as_ints.len() && 0 <= j < as_ints.len() && i != j implies as_ints[i] != as_ints[j] by {
            if i < j {
                assert(order[i] as int != order[j] as int);
            } else {
                assert(order[j] as int != order[i] as int);
            }
        }
    }
    as_ints.unique_seq_to_set();
    let n = keys.len() as int;
    let range = vstd::set_lib::set_int_range(0, n);
    vstd::set_lib::lemma_int_range(0, n);
    assert(as_ints.to_set().subset_of(range)) by {
        assert forall|x: int| as_ints.to_set().contains(x) implies range.contains(x) by {
            let i = choose|i: int| 0 <= i < as_ints.len() && as_ints[i] == x;
            assert(order[i] < keys.len());
        }
    }
    vstd::set_lib::lemma_subset_equality(as_ints.to_set(), range);
    assert forall|p: usize| p < keys.len() implies #[trigger] order.contains(p) by {
        assert(range.contains(p as int));
        assert(as_ints.to_set().contains(p as int));
        let i = choose|i: int| 0 <= i < as_ints.len() && as_ints[i] == p as int;
        assert(order[i] == p);
    }
}

/// There is only one stable order.
pub proof fn lemma_stable_order_unique(keys: Seq<i64>, a: Seq<usize>, b: Seq<usize>)
    requires
        stable_order(keys, a),
        stable_order(keys, b),
    ensures
        a == b,
{
    lemma_stable_order_covers(keys, a);
    lemma_stable_order_covers(keys, b);
    assert forall|k: int| 0 <= k < a.len() implies a[k] == b[k] by {
        lemma_stable_orders_agree(keys, a, b, k);
    }
    assert(a =~= b);
}

proof fn lemma_stable_orders_agree(keys: Seq<i64>, a: Seq<usize>, b: Seq<usize>, k: int)
    requires
        stable_order(keys, a),
        stable_order(keys, b),
        forall|p: usize| p < keys.len() ==> #[trigger] a.contains(p),
        forall|p: usize| p < keys.len() ==> #[trigger] b.contains(p),
        0 <= k < keys.len(),
    ensures
        a[k] == b[k],
    decreases k,
{
    assert forall|i: int| 0 <= i < k implies a[i] == b[i] by {
        lemma_stable_orders_agree(keys, a, b, i);
    }
    if a[k] != b[k] {
        assert(b.contains(a[k]) && a.contains(b[k]));
        let m = choose|m: int| 0 <= m < b.len() && b[m] == a[k];
        let l = choose|l: int| 0 <= l < a.len() && a[l] == b[k];
        if m < k {
            assert(a[m] as int == a[k] as int);
        } else if l < k {
            assert(b[l] as int == b[k] as int);
        } else {
            assert(k < m && k < l);
        }
    }
}

/// A sum of functions that agree on the range is the same.
pub proof fn lemma_total_same(n: int, f: spec_fn(int) -> int, g: spec_fn(int) -> int)
    requires
        forall|i: int| 0 <= i < n ==> #[trigger] f(i) == g(i),
    ensures
        total(n, f) == total(n, g),
    decreases n,
{
    if n > 0 {
        lemma_total_same(n - 1, f, g);
    }
}

/// What a range of positions holds is what satisfies a predicate, where the
/// range is exactly the positions that do.
pub proof fn lemma_range_is_filter<T>(s: Seq<T>, p: spec_fn(T) -> bool, lo: int, hi: int)
    requires
        0 <= lo <= hi <= s.len(),
        forall|i: int| 0 <= i < s.len() ==> (lo <= i < hi <==> p(#[trigger] s[i])),
    ensures
        s.subrange(lo, hi) == s.filter(p),
    decreases s.len(),
{
    reveal(Seq::filter);
    if s.len() == 0 {
        assert(s.subrange(lo, hi) =~= s);
    } else {
        let d = s.drop_last();
        let n = s.len() as int;
        assert forall|i: int| 0 <= i < d.len() implies (lo <= i < hi <==> p(#[trigger] d[i])) by {
            assert(d[i] == s[i]);
        }
        assert(lo <= n - 1 < hi <==> p(s[n - 1]));
        if hi == n && lo < n {
            lemma_range_is_filter(d, p, lo, n - 1);
            assert(s.subrange(lo, hi) =~= d.subrange(lo, n - 1).push(s.last()));
        } else if hi == n {
            lemma_range_is_filter(d, p, n - 1, n - 1);
            assert(s.subrange(lo, hi) =~= d.subrange(n - 1, n - 1));
        } else {
            lemma_range_is_filter(d, p, lo, hi);
            assert(s.subrange(lo, hi) =~= d.subrange(lo, hi));
        }
    }
}

/// The stable ascending order of `keys`.
pub fn stable_sort_order(keys: &Vec<i64>) -> (order: Vec<usize>)
    ensures
        stable_order(keys@, order@),
{
    let mut pairs: Vec<(i64, usize)> = Vec::new();
    let n: usize = keys.len();
    let mut i: usize = 0;
    while i < n
        invariant
            i <= n,
            n == keys.len(),
            pairs.len() == i,
            forall|k: int| 0 <= k < i ==> #[trigger] pairs@[k] == (keys@[k], k as usize),
        decreases n - i,
    {
        pairs.push((keys[i], i));
        i = i + 1;
    }
    let ghost before = pairs@;
    sort_pairs(&mut pairs);
    let ghost after = pairs@;
    proof {
        before.to_multiset_ensures();
        after.to_multiset_ensures();
        assert forall|k: int| 0 <= k < after.len() implies {
            let p = #[trigger] after[k];
            p.1 < n && p.0 == keys@[p.1 as int]
        } by {
            assert(after.contains(after[k]));
            assert(after.to_multiset().count(after[k]) > 0);
            assert(before.to_multiset().count(after[k]) > 0);
            assert(before.contains(after[k]));
            let j = choose|j: int| 0 <= j < before.len() && before[j] == after[k];
            assert(before[j] == (keys@[j], j as usize));
        }
        lemma_distinct(before, after);
    }
    let mut order: Vec<usize> = Vec::new();
    let mut i: usize = 0;
    while i < n
        invariant
            i <= n,
            n == keys.len(),
            pairs@ == after,
            after.len() == n,
            order.len() == i,
            forall|k: int| 0 <= k < n ==> (#[trigger] after[k]).1 < n,
            forall|k: int| 0 <= k < i ==> #[trigger] order@[k] == after[k].1,
        decreases n - i,
    {
        order.push(pairs[i].1);
        i = i + 1;
    }
    proof {
        assert forall|a: int, b: int| 0 <= a < b < order@.len() implies {
            let x = #[trigger] order@[a] as int;
            let y = #[trigger] order@[b] as int;
            keys@[x] < keys@[y] || (keys@[x] == keys@[y] && x < y)
        } by {
            assert(pair_le(after[a], after[b]));
            assert(after[a] != after[b]);
        }
    }
    order
}

proof fn lemma_distinct(before: Seq<(i64, usize)>, after: Seq<(i64, usize)>)
    requires
        before.to_multiset() == after.to_multiset(),
        forall|k: int| 0 <= k < before.len() ==> (#[trigger] before[k]).1 == k,
    ensures
        after.no_duplicates(),
{
    assert(before.no_duplicates());
    before.lemma_multiset_has_no_duplicates();
    assert(after.to_multiset().len() == after.len()) by {
        after.to_multiset_ensures();
    }
    after.lemma_multiset_has_no_duplicates_conv();
}

/// Position `i` holds the key `k`.
pub open spec fn key_is(keys: Seq<i64>, k: i64) -> spec_fn(int) -> bool {
    |i: int| keys[i] == k
}

/// `counts` lists each key of the first `n` once, ascending, with how often it
/// occurs.
pub open spec fn counts_keys(keys: Seq<i64>, n: int, counts: Seq<(i64, u64)>) -> bool {
    &&& forall|a: int, b: int|
        0 <= a < b < counts.len() ==> (#[trigger] counts[a]).0 < (#[trigger] counts[b]).0
    &&& forall|a: int|
        0 <= a < counts.len() ==> (#[trigger] counts[a]).1 > 0 && counts[a].1 == count(
            n,
            key_is(keys, counts[a].0),
        )
    &&& forall|i: int|
        0 <= i < n ==> exists|a: int| 0 <= a < counts.len() && (#[trigger] counts[a]).0 == #[trigger] keys[i]
}

/// First position whose key is not below `k`.
fn lower_bound(counts: &Vec<(i64, u64)>, k: i64) -> (at: usize)
    requires
        forall|a: int, b: int|
            0 <= a < b < counts.len() ==> (#[trigger] counts@[a]).0 < (#[trigger] counts@[b]).0,
    ensures
        at <= counts.len(),
        forall|a: int| 0 <= a < at ==> (#[trigger] counts@[a]).0 < k,
        forall|a: int| at <= a < counts.len() ==> (#[trigger] counts@[a]).0 >= k,
{
    let mut lo: usize = 0;
    let mut hi: usize = counts.len();
    while lo < hi
        invariant
            lo <= hi <= counts.len(),
            forall|a: int, b: int|
                0 <= a < b < counts.len() ==> (#[trigger] counts@[a]).0 < (#[trigger] counts@[b]).0,
            forall|a: int| 0 <= a < lo ==> (#[trigger] counts@[a]).0 < k,
            forall|a: int| hi <= a < counts.len() ==> (#[trigger] counts@[a]).0 >= k,
        decreases hi - lo,
    {
        let mid: usize = lo + (hi - lo) / 2;
        if counts[mid].0 < k {
            lo = mid + 1;
        } else {
            hi = mid;
        }
    }
    lo
}

/// Counts the occurrences of each key.
pub fn count_keys(keys: &Vec<i64>) -> (counts: Vec<(i64, u64)>)
    ensures
        counts_keys(keys@, keys.len() as int, counts@),
        counts.len() <= keys.len(),
{
    let mut counts: Vec<(i64, u64)> = Vec::new();
    let mut i: usize = 0;
    while i < keys.len()
        invariant
            i <= keys.len(),
            counts_keys(keys@, i as int, counts@),
            counts.len() <= i,
        decreases keys.len() - i,
    {
        let k: i64 = keys[i];
        let at: usize = lower_bound(&counts, k);
        let ghost was = counts@;
        let ghost n = i as int;
        if at < counts.len() && counts[at].0 == k {
            let c: u64 = counts[at].1;
            proof {
                lemma_count_bounds(n, key_is(keys@, k));
            }
            counts[at] = (k, c + 1);
            proof {
                assert forall|j: int| 0 <= j < n + 1 implies exists|a: int|
                    0 <= a < counts.len() && (#[trigger] counts@[a]).0 == #[trigger] keys@[j] by {
                    if j < n {
                        let a = choose|a: int| 0 <= a < was.len() && (#[trigger] was[a]).0 == keys@[j];
                        assert(counts@[a].0 == keys@[j]);
                    } else {
                        assert(counts@[at as int].0 == keys@[j]);
                    }
                }
            }
        } else {
            proof {
                lemma_absent(keys@, n, was, k);
            }
            counts.insert(at, (k, 1));
            proof {
                assert forall|j: int| 0 <= j < n + 1 implies exists|a: int|
                    0 <= a < counts.len() && (#[trigger] counts@[a]).0 == #[trigger] keys@[j] by {
                    if j < n {
                        let a = choose|a: int| 0 <= a < was.len() && (#[trigger] was[a]).0 == keys@[j];
                        if a < at {
                            assert(counts@[a].0 == keys@[j]);
                        } else {
                            assert(counts@[a + 1].0 == keys@[j]);
                        }
                    } else {
                        assert(counts@[at as int].0 == keys@[j]);
                    }
                }
            }
        }
        i = i + 1;
    }
    counts
}

proof fn lemma_absent(keys: Seq<i64>, n: int, counts: Seq<(i64, u64)>, k: i64)
    requires
        n >= 0,
        counts_keys(keys, n, counts),
        forall|a: int| 0 <= a < counts.len() ==> (#[trigger] counts[a]).0 != k,
    ensures
        count(n, key_is(keys, k)) == 0,
{
    lemma_count_zero(n, key_is(keys, k));
    assert forall|i: int| 0 <= i < n implies !#[trigger] key_is(keys, k)(i) by {
        let a = choose|a: int| 0 <= a < counts.len() && (#[trigger] counts[a]).0 == keys[i];
        assert(counts[a].0 != k);
    }
}

} // verus!
