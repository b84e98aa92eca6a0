//! Duplicate-free vectors of identifiers.
//!
//! Ports keep their container inventory, presence set and visit history as
//! vectors of ids without duplicates; ships keep their manifest the same
//! way. These helpers give the set operations membership-style contracts.

use vstd::prelude::*;

verus! {

/// Whether `x` occurs in `v`, by linear search.
pub fn contains_id(v: &Vec<u64>, x: u64) -> (b: bool)
    ensures
        b == v@.contains(x),
{
    let mut i: usize = 0;
    while i < v.len()
        invariant
            i <= v.len(),
            forall|k: int| 0 <= k < i ==> v@[k] != x,
        decreases v.len() - i,
    {
        if v[i] == x {
            return true;
        }
        i += 1;
    }
    false
}

/// Adds `x` if it is absent; the vector stays duplicate-free and afterwards
/// holds exactly the old elements together with `x`.
pub fn insert_id(v: &mut Vec<u64>, x: u64)
    requires
        old(v)@.no_duplicates(),
    ensures
        final(v)@.no_duplicates(),
        forall|y: u64| final(v)@.contains(y) == (old(v)@.contains(y) || y == x),
        old(v)@.contains(x) ==> final(v)@ == old(v)@,
        !old(v)@.contains(x) ==> final(v)@ == old(v)@.push(x),
{
    if !contains_id(v, x) {
        let ghost pre = v@;
        v.push(x);
        proof {
            assert forall|y: u64| v@.contains(y) == (pre.contains(y) || y == x) by {
                if pre.contains(y) || y == x {
                    if y == x {
                        assert(v@[pre.len() as int] == x);
                    } else {
                        let k = choose|k: int| 0 <= k < pre.len() && pre[k] == y;
                        assert(v@[k] == y);
                    }
                } else {
                    if v@.contains(y) {
                        let k = choose|k: int| 0 <= k < v@.len() && v@[k] == y;
                        assert(k < pre.len() || k == pre.len());
                    }
                }
            }
        }
    }
}

/// Removes `x` if it is present (by a swap with the last element, so the
/// remaining order is not preserved); returns whether it was present.
pub fn remove_id(v: &mut Vec<u64>, x: u64) -> (found: bool)
    requires
        old(v)@.no_duplicates(),
    ensures
        final(v)@.no_duplicates(),
        found == old(v)@.contains(x),
        !final(v)@.contains(x),
        forall|y: u64| y != x ==> final(v)@.contains(y) == old(v)@.contains(y),
        found ==> final(v)@.len() == old(v)@.len() - 1,
        found ==> exists|pos: int|
            0 <= pos < old(v)@.len() && old(v)@[pos] == x && final(v)@ == old(v)@.update(
                pos,
                old(v)@.last(),
            ).drop_last(),
        !found ==> final(v)@ == old(v)@,
{
    let ghost pre = v@;
    let mut i: usize = 0;
    while i < v.len()
        invariant
            i <= v.len(),
            v@ == pre,
            forall|k: int| 0 <= k < i ==> v@[k] != x,
        decreases v.len() - i,
    {
        if v[i] == x {
            let ghost n = pre.len() as int;
            v.swap_remove(i);
            proof {
                let post = v@;
                assert(post == pre.update(i as int, pre.last()).drop_last());
                assert(pre.contains(x));
                // membership after the swap-removal
                assert forall|y: u64| #[trigger] post.contains(y)
                    implies (pre.contains(y) && y != x) by {
                    let k = choose|k: int| 0 <= k < post.len() && post[k] == y;
                    if k == i {
                        assert(pre[n - 1] == y);
                        assert(y != x || i == n - 1);
                    } else {
                        assert(pre[k] == y);
                        assert(y != x);
                    }
                }
                assert forall|y: u64| pre.contains(y) && y != x
                    implies post.contains(y) by {
                    let k = choose|k: int| 0 <= k < n && pre[k] == y;
                    if k == i {
                        assert(pre[i as int] == x);
                    } else if k == n - 1 {
                        if i < n - 1 {
                            assert(post[i as int] == y);
                        }
                    } else {
                        assert(post[k] == y);
                    }
                }
                assert(post.no_duplicates()) by {
                    assert forall|p: int, q: int|
                        0 <= p < post.len() && 0 <= q < post.len() && p != q
                        implies post[p] != post[q] by {
                        if post[p] == post[q] {
                            let vp = if p == i { n - 1 } else { p };
                            let vq = if q == i { n - 1 } else { q };
                            assert(pre[vp] == pre[vq]);
                        }
                    }
                }
            }
            proof {
                assert(0 <= i as int && (i as int) < pre.len() && pre[i as int] == x && v@
                    == pre.update(i as int, pre.last()).drop_last());
            }
            return true;
        }
        i += 1;
    }
    false
}

/// Ascending order (duplicates admitted).
pub open spec fn sorted_ids(s: Seq<u64>) -> bool {
    forall|i: int, j: int| 0 <= i < j < s.len() ==> s[i] <= s[j]
}

/// Sorts a duplicate-free id vector ascending, by repeated ordered
/// insertion; the result holds exactly the same ids.
pub fn sort_ids(v: &Vec<u64>) -> (r: Vec<u64>)
    requires
        v@.no_duplicates(),
    ensures
        sorted_ids(r@),
        r@.no_duplicates(),
        r@.len() == v@.len(),
        forall|y: u64| r@.contains(y) == v@.contains(y),
{
    let mut out: Vec<u64> = Vec::new();
    let mut i: usize = 0;
    while i < v.len()
        invariant
            i <= v@.len(),
            out@.len() == i,
            sorted_ids(out@),
            out@.no_duplicates(),
            forall|y: u64|
                out@.contains(y) == exists|k: int| 0 <= k < i && v@[k] == y,
        decreases v.len() - i,
    {
        let x = v[i];
        let mut p: usize = 0;
        while p < out.len() && out[p] < x
            invariant
                p <= out@.len(),
                forall|k: int| 0 <= k < p ==> out@[k] < x,
            decreases out.len() - p,
        {
            p += 1;
        }
        proof {
            assert(!out@.contains(x)) by {
                if out@.contains(x) {
                    let k = choose|k: int| 0 <= k < i && v@[k] == x;
                    assert(v@[i as int] == x);
                }
            }
        }
        let ghost pre = out@;
        out.insert(p, x);
        proof {
            let post = out@;
            assert(post == pre.insert(p as int, x));
            assert forall|a: int, b: int| 0 <= a < b < post.len()
                implies post[a] <= post[b] by {
                let va = if a < p { pre[a] } else if a == p { x } else { pre[a - 1] };
                let vb = if b < p { pre[b] } else if b == p { x } else { pre[b - 1] };
                assert(post[a] == va);
                assert(post[b] == vb);
            }
            assert(post.no_duplicates()) by {
                assert forall|a: int, b: int|
                    0 <= a < post.len() && 0 <= b < post.len() && a != b
                    implies post[a] != post[b] by {
                    if post[a] == post[b] {
                        if a != p && b != p {
                            let va = if a < p { a } else { a - 1 };
                            let vb = if b < p { b } else { b - 1 };
                            assert(pre[va] == post[a]);
                            assert(pre[vb] == post[b]);
                        } else {
                            let o = if a == p { b } else { a };
                            let vo = if o < p { o } else { o - 1 };
                            assert(post[o] == pre[vo]);
                            assert(pre.contains(x));
                        }
                    }
                }
            }
            assert forall|y: u64| post.contains(y)
                implies (pre.contains(y) || y == x) by {
                let k = choose|k: int| 0 <= k < post.len() && post[k] == y;
                if k < p {
                    assert(pre[k] == y);
                } else if k > p {
                    assert(pre[k - 1] == y);
                }
            }
            assert forall|y: u64| pre.contains(y) || y == x
                implies post.contains(y) by {
                if y == x {
                    assert(post[p as int] == x);
                } else {
                    let k = choose|k: int| 0 <= k < pre.len() && pre[k] == y;
                    if k < p {
                        assert(post[k] == y);
                    } else {
                        assert(post[k + 1] == y);
                    }
                }
            }
            assert forall|y: u64|
                post.contains(y) == exists|k: int| 0 <= k < i + 1 && v@[k] == y by {
                if post.contains(y) {
                    if y == x {
                        assert(v@[i as int] == y);
                    } else {
                        assert(pre.contains(y));
                        let k = choose|k: int| 0 <= k < i && v@[k] == y;
                        assert(0 <= k < i + 1 && v@[k] == y);
                    }
                } else {
                    if exists|k: int| 0 <= k < i + 1 && v@[k] == y {
                        let k = choose|k: int| 0 <= k < i + 1 && v@[k] == y;
                        assert(k == i || (0 <= k < i && v@[k] == y));
                    }
                }
            }
        }
        i += 1;
    }
    out
}

} // verus!
