//! Observations gathered by time bucket.
//!
//! A table of buckets is a list of rows by ascending key; [`lists`] relates it
//! to the map that it stands for.

use vstd::prelude::*;

verus! {

/// The rows list what a map holds, by ascending key.
pub open spec fn lists<V>(rows: Seq<(i64, V)>, m: Map<i64, V>) -> bool {
    &&& forall|i: int, j: int|
        0 <= i < j < rows.len() ==> (#[trigger] rows[i]).0 < (#[trigger] rows[j]).0
    &&& forall|i: int|
        0 <= i < rows.len() ==> m.contains_key((#[trigger] rows[i]).0) && m[rows[i].0] == rows[i].1
    &&& forall|k: i64| #[trigger] m.contains_key(k) ==> rows.contains((k, m[k]))
}

pub open spec fn ascending<V>(rows: Seq<(i64, V)>) -> bool {
    forall|i: int, j: int|
        0 <= i < j < rows.len() ==> (#[trigger] rows[i]).0 < (#[trigger] rows[j]).0
}

/// Two tables of one map are the same.
pub proof fn tables_are_unique<V>(a: Seq<(i64, V)>, b: Seq<(i64, V)>, m: Map<i64, V>)
    requires
        lists(a, m),
        lists(b, m),
    ensures
        a == b,
    decreases a.len(),
{
    if a.len() == 0 {
        if b.len() > 0 {
            assert(m.contains_key(b[0].0));
        }
        assert(a =~= b);
    } else {
        let k = a.last().0;
        assert(m.contains_key(k));
        let j = choose|j: int| 0 <= j < b.len() && b[j] == (k, m[k]);
        assert(b[j].0 == k);
        if j < b.len() - 1 {
            let z = b.last().0;
            assert(b[j].0 < b[b.len() - 1].0);
            assert(m.contains_key(z));
            let i = choose|i: int| 0 <= i < a.len() && a[i] == (z, m[z]);
            assert(a[i].0 == z);
            assert(a[i].0 <= a[a.len() - 1].0);
        }
        let rest = m.remove(k);
        let ad = a.drop_last();
        let bd = b.drop_last();
        assert(lists(ad, rest)) by {
            assert forall|i: int| 0 <= i < ad.len() implies rest.contains_key((#[trigger] ad[i]).0)
                && rest[ad[i].0] == ad[i].1 by {
                assert(ad[i] == a[i]);
                assert(a[i].0 < a[a.len() - 1].0);
            }
            assert forall|q: i64| #[trigger] rest.contains_key(q) implies ad.contains((q, rest[q])) by {
                assert(m.contains_key(q));
                let i = choose|i: int| 0 <= i < a.len() && a[i] == (q, m[q]);
                assert(ad[i] == (q, rest[q]));
            }
        }
        assert(lists(bd, rest)) by {
            assert forall|i: int| 0 <= i < bd.len() implies rest.contains_key((#[trigger] bd[i]).0)
                && rest[bd[i].0] == bd[i].1 by {
                assert(bd[i] == b[i]);
                assert(b[i].0 < b[b.len() - 1].0);
            }
            assert forall|q: i64| #[trigger] rest.contains_key(q) implies bd.contains((q, rest[q])) by {
                assert(m.contains_key(q));
                let i = choose|i: int| 0 <= i < b.len() && b[i] == (q, m[q]);
                assert(bd[i] == (q, rest[q]));
            }
        }
        tables_are_unique(ad, bd, rest);
        assert(a =~= ad.push(a.last()));
        assert(b =~= bd.push(b.last()));
        assert(b.last() == a.last());
    }
}

/// Position of a key, or where it would stand.
fn position<V: Copy>(rows: &Vec<(i64, V)>, key: i64) -> (at: usize)
    requires
        ascending(rows@),
    ensures
        at <= rows.len(),
        forall|i: int| 0 <= i < at ==> (#[trigger] rows@[i]).0 < key,
        forall|i: int| at <= i < rows.len() ==> (#[trigger] rows@[i]).0 >= key,
{
    let mut lo: usize = 0;
    let mut hi: usize = rows.len();
    while lo < hi
        invariant
            lo <= hi <= rows.len(),
            ascending(rows@),
            forall|i: int| 0 <= i < lo ==> (#[trigger] rows@[i]).0 < key,
            forall|i: int| hi <= i < rows.len() ==> (#[trigger] rows@[i]).0 >= key,
        decreases hi - lo,
    {
        let mid: usize = lo + (hi - lo) / 2;
        if rows[mid].0 < key {
            lo = mid + 1;
        } else {
            hi = mid;
        }
    }
    lo
}

/// What the map of a table holds under a key.
pub fn look<V: Copy>(rows: &Vec<(i64, V)>, key: i64) -> (v: Option<V>)
    requires
        ascending(rows@),
    ensures
        forall|m: Map<i64, V>| #[trigger]
            lists(rows@, m) ==> v == (if m.contains_key(key) {
                Some(m[key])
            } else {
                None
            }),
{
    let at: usize = position(rows, key);
    if at < rows.len() && rows[at].0 == key {
        assert forall|m: Map<i64, V>| #[trigger] lists(rows@, m) implies m.contains_key(key)
            && m[key] == rows@[at as int].1 by {
            assert(m.contains_key(rows@[at as int].0));
        }
        Some(rows[at].1)
    } else {
        assert forall|m: Map<i64, V>| #[trigger] lists(rows@, m) implies !m.contains_key(key) by {
            if m.contains_key(key) {
                let i = choose|i: int| 0 <= i < rows.len() && rows@[i] == (key, m[key]);
                assert(rows@[i].0 == key);
                if i < at {
                } else if i > at {
                    assert(rows@[at as int].0 < rows@[i].0);
                }
            }
        }
        None
    }
}

proof fn lemma_replace<V>(rows: Seq<(i64, V)>, m: Map<i64, V>, at: int, v: V)
    requires
        lists(rows, m),
        0 <= at < rows.len(),
    ensures
        lists(rows.update(at, (rows[at].0, v)), m.insert(rows[at].0, v)),
{
    let key = rows[at].0;
    let after = rows.update(at, (key, v));
    let n = m.insert(key, v);
    assert forall|i: int, j: int| 0 <= i < j < after.len() implies (#[trigger] after[i]).0 < (
    #[trigger] after[j]).0 by {
        assert(rows[i].0 < rows[j].0);
    }
    assert forall|i: int| 0 <= i < after.len() implies n.contains_key((#[trigger] after[i]).0)
        && n[after[i].0] == after[i].1 by {
        assert(m.contains_key(rows[i].0));
        if i < at {
            assert(rows[i].0 < rows[at].0);
        } else if i > at {
            assert(rows[at].0 < rows[i].0);
        }
    }
    assert forall|k: i64| #[trigger] n.contains_key(k) implies after.contains((k, n[k])) by {
        if k == key {
            assert(after[at] == (k, n[k]));
        } else {
            assert(m.contains_key(k));
            let i = choose|i: int| 0 <= i < rows.len() && rows[i] == (k, m[k]);
            assert(after[i] == (k, n[k]));
        }
    }
}

proof fn lemma_insert<V>(rows: Seq<(i64, V)>, m: Map<i64, V>, at: int, key: i64, v: V)
    requires
        lists(rows, m),
        0 <= at <= rows.len(),
        forall|i: int| 0 <= i < at ==> (#[trigger] rows[i]).0 < key,
        forall|i: int| at <= i < rows.len() ==> (#[trigger] rows[i]).0 > key,
    ensures
        lists(rows.insert(at, (key, v)), m.insert(key, v)),
{
    let after = rows.insert(at, (key, v));
    let n = m.insert(key, v);
    let back = |i: int|
        if i < at {
            i
        } else {
            i - 1
        };
    assert forall|i: int, j: int| 0 <= i < j < after.len() implies (#[trigger] after[i]).0 < (
    #[trigger] after[j]).0 by {
        if i != at && j != at {
            assert(rows[back(i)].0 < rows[back(j)].0);
        } else if i == at {
            assert(after[j] == rows[j - 1]);
        } else {
            assert(after[i] == rows[i]);
        }
    }
    assert forall|i: int| 0 <= i < after.len() implies n.contains_key((#[trigger] after[i]).0)
        && n[after[i].0] == after[i].1 by {
        if i != at {
            assert(m.contains_key(rows[back(i)].0));
        }
    }
    assert forall|k: i64| #[trigger] n.contains_key(k) implies after.contains((k, n[k])) by {
        if k == key {
            assert(after[at] == (k, n[k]));
        } else {
            assert(m.contains_key(k));
            let i = choose|i: int| 0 <= i < rows.len() && rows[i] == (k, m[k]);
            if i < at {
                assert(after[i] == (k, n[k]));
            } else {
                assert(after[i + 1] == (k, n[k]));
            }
        }
    }
}

/// Sets what the map of a table holds under a key.
pub fn put<V: Copy>(rows: &mut Vec<(i64, V)>, key: i64, v: V)
    requires
        ascending(old(rows)@),
    ensures
        forall|m: Map<i64, V>| #[trigger]
            lists(old(rows)@, m) ==> lists(final(rows)@, m.insert(key, v)),
        ascending(final(rows)@),
{
    let ghost was = rows@;
    let at: usize = position(rows, key);
    if at < rows.len() && rows[at].0 == key {
        rows.set(at, (key, v));
        proof {
            assert forall|m: Map<i64, V>| #[trigger] lists(was, m) implies lists(
                rows@,
                m.insert(key, v),
            ) by {
                lemma_replace(was, m, at as int, v);
            }
            assert forall|i: int, j: int| 0 <= i < j < rows.len() implies (#[trigger] rows@[i]).0
                < (#[trigger] rows@[j]).0 by {
                assert(was[i].0 < was[j].0);
            }
        }
    } else {
        proof {
            assert forall|i: int| at <= i < was.len() implies (#[trigger] was[i]).0 > key by {
                if i > at {
                    assert(was[at as int].0 < was[i].0);
                }
            }
        }
        rows.insert(at, (key, v));
        proof {
            assert forall|m: Map<i64, V>| #[trigger] lists(was, m) implies lists(
                rows@,
                m.insert(key, v),
            ) by {
                lemma_insert(was, m, at as int, key, v);
            }
            lemma_own(was);
        }
    }
}

/// The map that a table stands for.
pub open spec fn table<V>(rows: Seq<(i64, V)>) -> Map<i64, V> {
    Map::new(
        |k: i64| exists|i: int| 0 <= i < rows.len() && (#[trigger] rows[i]).0 == k,
        |k: i64| rows[choose|i: int| 0 <= i < rows.len() && (#[trigger] rows[i]).0 == k].1,
    )
}

proof fn lemma_own<V>(rows: Seq<(i64, V)>)
    requires
        ascending(rows),
    ensures
        lists(rows, table(rows)),
{
    let m = table(rows);
    assert forall|i: int| 0 <= i < rows.len() implies m.contains_key((#[trigger] rows[i]).0)
        && m[rows[i].0] == rows[i].1 by {
        let k = rows[i].0;
        let j = choose|j: int| 0 <= j < rows.len() && (#[trigger] rows[j]).0 == k;
        assert(rows[j].0 == k);
        if i < j {
            assert(rows[i].0 < rows[j].0);
        } else if j < i {
            assert(rows[j].0 < rows[i].0);
        }
    }
    assert forall|k: i64| #[trigger] m.contains_key(k) implies rows.contains((k, m[k])) by {
        let j = choose|j: int| 0 <= j < rows.len() && (#[trigger] rows[j]).0 == k;
        assert(rows[j] == (k, m[k]));
    }
}

/// Start of the bucket that holds an instant: the instant without what is over a
/// multiple of the width, towards zero.
pub open spec fn start_of(ts: i64, width: i64) -> int {
    if ts >= 0 {
        (ts as int / width as int) * width
    } else {
        -((-ts as int / width as int) * width)
    }
}

/// The bucket that starts at `key` holds an instant. Buckets count towards zero:
/// before it they end with their start, and the one at zero reaches to both sides.
pub open spec fn holds(key: int, width: i64, ts: i64) -> bool {
    &&& key % width as int == 0
    &&& if ts >= 0 {
        key <= ts < key + width
    } else {
        key - width < ts <= key
    }
}

/// Every instant lies in the bucket at its start, and in no other.
pub proof fn instants_lie_in_one_bucket(ts: i64, width: i64, key: int)
    requires
        width > 0,
    ensures
        holds(key, width, ts) <==> key == start_of(ts, width),
        i64::MIN <= start_of(ts, width) <= i64::MAX,
{
    let w = width as int;
    let m = if ts >= 0 {
        ts as int
    } else {
        -ts as int
    };
    let q = m / w;
    vstd::arithmetic::div_mod::lemma_fundamental_div_mod(m, w);
    vstd::arithmetic::div_mod::lemma_mod_bound(m, w);
    vstd::arithmetic::div_mod::lemma_div_pos_is_pos(m, w);
    assert(w * q == q * w && 0 <= q * w) by (nonlinear_arith)
        requires
            0 <= q,
            0 < w,
    ;
    vstd::arithmetic::div_mod::lemma_mod_multiples_basic(q, w);
    vstd::arithmetic::div_mod::lemma_mod_multiples_basic(-q, w);
    assert((-q) * w == -(q * w)) by (nonlinear_arith);
    if holds(key, width, ts) {
        let k = if ts >= 0 {
            key / w
        } else {
            -(key / w)
        };
        vstd::arithmetic::div_mod::lemma_fundamental_div_mod(key, w);
        assert(w * (-(key / w)) == -(w * (key / w))) by (nonlinear_arith);
        assert(k == q) by (nonlinear_arith)
            requires
                w > 0,
                w * k <= m < w * k + w,
                w * q <= m < w * q + w,
        ;
    }
}

/// Start of the bucket that holds an instant.
pub fn bucket_start(ts: i64, width: i64) -> (k: i64)
    requires
        width > 0,
    ensures
        k == start_of(ts, width),
{
    proof {
        let m = if ts >= 0 {
            ts as int
        } else {
            -ts as int
        };
        vstd::arithmetic::div_mod::lemma_fundamental_div_mod(m, width as int);
        assert(width * (m / width as int) == (m / width as int) * width) by (nonlinear_arith);
        vstd::arithmetic::div_mod::lemma_mod_bound(m, width as int);
        vstd::arithmetic::div_mod::lemma_div_pos_is_pos(m, width as int);
        assert(0 <= (m / width as int) * width <= m) by (nonlinear_arith)
            requires
                m == width * (m / width as int) + m % width as int,
                0 <= m % width as int,
                0 <= m / width as int,
                width > 0,
        ;
    }
    if ts >= 0 {
        (ts / width) * width
    } else {
        let up: i128 = -(ts as i128);
        (-((up / width as i128) * width as i128)) as i64
    }
}

} // verus!
