//! Stable sorting of price levels, used when a decoded frame is
//! normalized: bids descending, asks ascending, ties kept in wire
//! order.

use vstd::prelude::*;

use crate::common::Level;
use crate::merger::price_le;
use crate::merger::sorted_dir;

verus! {

/// Insert `x` after every element that may stand before it, so an
/// element already present wins a price tie (stability).
pub open spec fn insert_dir(s: Seq<Level>, x: Level, asc: bool) -> Seq<Level>
    decreases s.len(),
{
    if s.len() == 0 {
        seq![x]
    } else if price_le(s[0], x, asc) {
        seq![s[0]] + insert_dir(s.skip(1), x, asc)
    } else {
        seq![x] + s
    }
}

/// Stable insertion sort by price.
pub open spec fn sort_dir(s: Seq<Level>, asc: bool) -> Seq<Level>
    decreases s.len(),
{
    if s.len() == 0 {
        Seq::empty()
    } else {
        insert_dir(sort_dir(s.drop_last(), asc), s.last(), asc)
    }
}

/// Inserting into an ordered sequence keeps it ordered, adds one
/// element, and holds exactly the old elements plus `x`.
pub proof fn lemma_insert_dir_props(s: Seq<Level>, x: Level, asc: bool)
    requires
        sorted_dir(s, asc),
    ensures
        insert_dir(s, x, asc).len() == s.len() + 1,
        sorted_dir(insert_dir(s, x, asc), asc),
        forall|y: Level| insert_dir(s, x, asc).contains(y) <==> s.contains(y) || y == x,
        insert_dir(s, x, asc).contains(x),
    decreases s.len(),
{
    let m = insert_dir(s, x, asc);
    if s.len() == 0 {
        assert forall|y: Level| m.contains(y) <==> s.contains(y) || y == x by {
            if m.contains(y) {
                let i = choose|i: int| 0 <= i < m.len() && m[i] == y;
                assert(y == x);
            }
            if y == x {
                assert(m[0] == y);
            }
        }
        assert(m[0] == x);
        assert(m.contains(x));
    } else if price_le(s[0], x, asc) {
        let rest = insert_dir(s.skip(1), x, asc);
        assert(sorted_dir(s.skip(1), asc));
        lemma_insert_dir_props(s.skip(1), x, asc);
        assert forall|y: Level| m.contains(y) <==> s.contains(y) || y == x by {
            if m.contains(y) {
                let i = choose|i: int| 0 <= i < m.len() && m[i] == y;
                if i == 0 {
                    assert(s[0] == y);
                } else {
                    assert(rest[i - 1] == y);
                    assert(rest.contains(y));
                    if s.skip(1).contains(y) {
                        let k = choose|k: int| 0 <= k < s.skip(1).len() && s.skip(1)[k] == y;
                        assert(s[k + 1] == y);
                    }
                }
            }
            if s.contains(y) {
                let k = choose|k: int| 0 <= k < s.len() && s[k] == y;
                if k == 0 {
                    assert(m[0] == y);
                } else {
                    assert(s.skip(1)[k - 1] == y);
                    assert(s.skip(1).contains(y));
                    let j = choose|j: int| 0 <= j < rest.len() && rest[j] == y;
                    assert(m[j + 1] == y);
                }
            }
            if y == x {
                assert(rest.contains(x));
                let j = choose|j: int| 0 <= j < rest.len() && rest[j] == y;
                assert(m[j + 1] == y);
            }
        }
        assert(rest.contains(x));
        assert(m.contains(x)) by {
            let j = choose|j: int| 0 <= j < rest.len() && rest[j] == x;
            assert(m[j + 1] == x);
        }
        assert forall|i: int, j: int| 0 <= i < j < m.len() implies price_le(m[i], m[j], asc) by {
            if i == 0 {
                let y = m[j];
                assert(rest[j - 1] == y);
                assert(rest.contains(y));
                if s.skip(1).contains(y) {
                    let k = choose|k: int| 0 <= k < s.skip(1).len() && s.skip(1)[k] == y;
                    assert(s[k + 1] == y);
                    assert(price_le(s[0], s[k + 1], asc));
                }
            } else {
                assert(price_le(rest[i - 1], rest[j - 1], asc));
            }
        }
    } else {
        assert forall|y: Level| m.contains(y) <==> s.contains(y) || y == x by {
            if m.contains(y) {
                let i = choose|i: int| 0 <= i < m.len() && m[i] == y;
                if i > 0 {
                    assert(s[i - 1] == y);
                }
            }
            if s.contains(y) {
                let k = choose|k: int| 0 <= k < s.len() && s[k] == y;
                assert(m[k + 1] == y);
            }
            if y == x {
                assert(m[0] == y);
            }
        }
        assert(m[0] == x);
        assert(m.contains(x));
        assert forall|i: int, j: int| 0 <= i < j < m.len() implies price_le(m[i], m[j], asc) by {
            if i == 0 {
                if j > 1 {
                    assert(price_le(s[0], s[j - 1], asc));
                }
            } else {
                assert(price_le(s[i - 1], s[j - 1], asc));
            }
        }
    }
}

/// Sorting orders the sequence and keeps exactly its elements.
pub proof fn lemma_sort_dir_props(s: Seq<Level>, asc: bool)
    ensures
        sort_dir(s, asc).len() == s.len(),
        sorted_dir(sort_dir(s, asc), asc),
        forall|y: Level| sort_dir(s, asc).contains(y) <==> s.contains(y),
    decreases s.len(),
{
    let m = sort_dir(s, asc);
    if s.len() == 0 {
        assert forall|y: Level| m.contains(y) <==> s.contains(y) by {
            if m.contains(y) {
                let i = choose|i: int| 0 <= i < m.len() && m[i] == y;
            }
            if s.contains(y) {
                let i = choose|i: int| 0 <= i < s.len() && s[i] == y;
            }
        }
    } else {
        let prefix = sort_dir(s.drop_last(), asc);
        lemma_sort_dir_props(s.drop_last(), asc);
        lemma_insert_dir_props(prefix, s.last(), asc);
        assert(m == insert_dir(prefix, s.last(), asc));
        assert forall|y: Level| m.contains(y) <==> s.contains(y) by {
            if m.contains(y) {
                assert(prefix.contains(y) || y == s.last());
                if prefix.contains(y) {
                    assert(s.drop_last().contains(y));
                    let k = choose|k: int| 0 <= k < s.drop_last().len() && s.drop_last()[k] == y;
                    assert(s[k] == y);
                } else {
                    assert(y == s.last());
                    assert(s[s.len() - 1] == y);
                }
            }
            if s.contains(y) {
                let k = choose|k: int| 0 <= k < s.len() && s[k] == y;
                if k < s.len() - 1 {
                    assert(s.drop_last()[k] == y);
                    assert(s.drop_last().contains(y));
                    assert(prefix.contains(y));
                    assert(insert_dir(prefix, s.last(), asc).contains(y));
                } else {
                    assert(y == s.last());
                    assert(insert_dir(prefix, s.last(), asc).contains(y));
                }
            }
        }
    }
}

/// Whether `a` may stand before `b` on this side.
fn level_precedes(a: &Level, b: &Level, asc: bool) -> (r: bool)
    ensures
        r == price_le(*a, *b, asc),
{
    if asc {
        a.price <= b.price
    } else {
        a.price >= b.price
    }
}

/// Where [`insert_dir`] puts `x`: right before the first element that
/// may not stand before it.
proof fn lemma_insert_dir_at(s: Seq<Level>, x: Level, asc: bool, k: int)
    requires
        0 <= k <= s.len(),
        forall|t: int| 0 <= t < k ==> price_le(#[trigger] s[t], x, asc),
        k < s.len() ==> !price_le(s[k], x, asc),
    ensures
        insert_dir(s, x, asc) == s.insert(k, x),
    decreases s.len(),
{
    if s.len() == 0 {
        assert(insert_dir(s, x, asc) =~= s.insert(0, x));
    } else if k == 0 {
        assert(insert_dir(s, x, asc) =~= s.insert(0, x));
    } else {
        assert(price_le(s[0], x, asc));
        assert forall|t: int| 0 <= t < k - 1 implies price_le(#[trigger] s.skip(1)[t], x, asc) by {
            assert(s.skip(1)[t] == s[t + 1]);
        }
        lemma_insert_dir_at(s.skip(1), x, asc, k - 1);
        assert(insert_dir(s, x, asc) =~= s.insert(k, x)) by {
            assert(insert_dir(s, x, asc) == seq![s[0]] + s.skip(1).insert(k - 1, x));
        }
    }
}

/// Insert `x` into the ordered vector `v`, stably.
fn insert_level(v: &mut Vec<Level>, x: Level, asc: bool)
    ensures
        final(v)@ == insert_dir(old(v)@, x, asc),
{
    let n = v.len();
    let mut k: usize = 0;
    while k < n && level_precedes(&v[k], &x, asc)
        invariant
            k <= n == v@.len(),
            v@ == old(v)@,
            forall|t: int| 0 <= t < k ==> price_le(#[trigger] v@[t], x, asc),
        decreases n - k,
    {
        k = k + 1;
    }
    proof {
        lemma_insert_dir_at(v@, x, asc, k as int);
    }
    v.insert(k, x);
}

/// Executable counterpart of [`sort_dir`].
pub fn sort_levels(v: &Vec<Level>, asc: bool) -> (r: Vec<Level>)
    ensures
        r@ == sort_dir(v@, asc),
{
    let mut r: Vec<Level> = Vec::new();
    let mut i: usize = 0;
    proof {
        assert(v@.take(0) =~= Seq::<Level>::empty());
    }
    while i < v.len()
        invariant
            i <= v@.len(),
            r@ == sort_dir(v@.take(i as int), asc),
        decreases v@.len() - i,
    {
        insert_level(&mut r, v[i], asc);
        proof {
            assert(v@.take(i + 1).drop_last() =~= v@.take(i as int));
            assert(v@.take(i + 1).last() == v@[i as int]);
        }
        i = i + 1;
    }
    proof {
        assert(v@.take(v@.len() as int) =~= v@);
    }
    r
}

} // verus!
