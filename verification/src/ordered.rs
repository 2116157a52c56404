//! Strictly increasing sequences of numbers, kept in a `Vec`.
//!
//! Such a sequence is a set whose order of enumeration is fixed: it holds
//! nothing twice, and what it holds comes out smallest first.

use vstd::prelude::*;

verus! {

/// Each element of `s` is smaller than every one after it.
pub open spec fn strictly_increasing(s: Seq<u32>) -> bool {
    forall|i: int, j: int| 0 <= i < j < s.len() ==> s[i] < s[j]
}

/// Two strictly increasing sequences with the same elements are equal.
pub proof fn lemma_increasing_unique(a: Seq<u32>, b: Seq<u32>)
    requires
        strictly_increasing(a),
        strictly_increasing(b),
        forall|x: u32| a.contains(x) <==> b.contains(x),
    ensures
        a == b,
    decreases a.len(),
{
    if a.len() == 0 {
        if b.len() > 0 {
            assert(b.contains(b[0]));
        }
        assert(a =~= b);
    } else if b.len() == 0 {
        assert(a.contains(a[0]));
    } else {
        // The last element of each is its greatest, so the two agree.
        let la = a.last();
        let lb = b.last();
        assert(a.contains(la));
        assert(b.contains(lb));
        assert(b.contains(la));
        assert(a.contains(lb));
        let ia = choose|i: int| 0 <= i < b.len() && b[i] == la;
        let ib = choose|i: int| 0 <= i < a.len() && a[i] == lb;
        assert(la == lb);
        let a1 = a.drop_last();
        let b1 = b.drop_last();
        assert forall|x: u32| a1.contains(x) <==> b1.contains(x) by {
            if a1.contains(x) {
                let i = choose|i: int| 0 <= i < a1.len() && a1[i] == x;
                assert(a[i] == x);
                assert(a.contains(x));
                let j = choose|j: int| 0 <= j < b.len() && b[j] == x;
                assert(x < la);
                assert(j < b.len() - 1);
                assert(b1[j] == x);
            }
            if b1.contains(x) {
                let i = choose|i: int| 0 <= i < b1.len() && b1[i] == x;
                assert(b[i] == x);
                assert(b.contains(x));
                let j = choose|j: int| 0 <= j < a.len() && a[j] == x;
                assert(x < lb);
                assert(j < a.len() - 1);
                assert(a1[j] == x);
            }
        }
        lemma_increasing_unique(a1, b1);
        assert(a =~= a1.push(la));
        assert(b =~= b1.push(lb));
    }
}

/// The index of the first element of `v` that is not below `x`, or the
/// length of `v` where there is none.
pub fn lower_bound(v: &Vec<u32>, x: u32) -> (i: usize)
    requires
        strictly_increasing(v@),
    ensures
        i <= v.len(),
        forall|j: int| 0 <= j < i ==> v[j] < x,
        forall|j: int| i <= j < v.len() ==> v[j] >= x,
{
    let mut lo: usize = 0;
    let mut hi: usize = v.len();
    while lo < hi
        invariant
            lo <= hi <= v.len(),
            strictly_increasing(v@),
            forall|j: int| 0 <= j < lo ==> v[j] < x,
            forall|j: int| hi <= j < v.len() ==> v[j] >= x,
        decreases hi - lo,
    {
        let mid = lo + (hi - lo) / 2;
        if v[mid] < x {
            assert forall|j: int| 0 <= j < mid + 1 implies v[j] < x by {
                if j < mid {
                    assert(v[j] < v[mid as int]);
                }
            }
            lo = mid + 1;
        } else {
            assert forall|j: int| mid <= j < v.len() implies v[j] >= x by {
                if j > mid {
                    assert(v[mid as int] < v[j]);
                }
            }
            hi = mid;
        }
    }
    lo
}

/// Whether `x` is an element of `v`.
pub fn contains(v: &Vec<u32>, x: u32) -> (r: bool)
    requires
        strictly_increasing(v@),
    ensures
        r == v@.contains(x),
{
    let i = lower_bound(v, x);
    if i < v.len() && v[i] == x {
        true
    } else {
        assert forall|j: int| 0 <= j < v.len() implies v[j] != x by {
            if j >= i && i < v.len() {
                assert(v[i as int] > x);
            }
        }
        false
    }
}

/// Adds `x` to `v` unless it is there already. The result says whether it
/// was added.
pub fn insert(v: &mut Vec<u32>, x: u32) -> (added: bool)
    requires
        strictly_increasing(old(v)@),
    ensures
        strictly_increasing(final(v)@),
        added == !old(v)@.contains(x),
        forall|y: u32| #[trigger] final(v)@.contains(y) <==> (y == x || old(v)@.contains(y)),
        final(v)@.len() == old(v)@.len() + if added {
            1int
        } else {
            0int
        },
{
    let i = lower_bound(v, x);
    if i < v.len() && v[i] == x {
        assert(v@[i as int] == x);
        false
    } else {
        let ghost before = v@;
        assert forall|j: int| 0 <= j < before.len() implies before[j] != x by {
            if j >= i && i < before.len() {
                assert(before[i as int] > x);
            }
        }
        v.insert(i, x);
        assert(v@ == before.insert(i as int, x));
        assert forall|a: int, b: int| 0 <= a < b < v@.len() implies v@[a] < v@[b] by {
            if a < i && b > i {
                assert(v@[a] == before[a]);
                assert(v@[b] == before[b - 1]);
            } else if a > i {
                assert(v@[a] == before[a - 1]);
                assert(v@[b] == before[b - 1]);
            }
        }
        assert forall|y: u32| #[trigger] v@.contains(y) <==> (y == x || before.contains(y)) by {
            if v@.contains(y) {
                let k = choose|k: int| 0 <= k < v@.len() && v@[k] == y;
                if k < i {
                    assert(before[k] == y);
                } else if k > i {
                    assert(before[k - 1] == y);
                }
            }
            if y == x {
                assert(v@[i as int] == x);
            }
            if before.contains(y) {
                let k = choose|k: int| 0 <= k < before.len() && before[k] == y;
                if k < i {
                    assert(v@[k] == y);
                } else {
                    assert(v@[k + 1] == y);
                }
            }
        }
        true
    }
}

} // verus!
