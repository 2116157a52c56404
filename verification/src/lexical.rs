//! The order of the dictionary on texts: by the first character in which two
//! texts differ, and a text before every longer text that starts with it.

use vstd::prelude::*;

verus! {

/// The first index from `from` on at which `a` and `b` differ, or at which
/// one of them ends.
pub open spec fn mismatch(a: Seq<char>, b: Seq<char>, from: int) -> int
    decreases a.len() - from,
{
    if from < 0 || from >= a.len() || from >= b.len() || a[from] != b[from] {
        from
    } else {
        mismatch(a, b, from + 1)
    }
}

/// `a` comes before `b` in the order of the dictionary.
pub open spec fn lex_less(a: Seq<char>, b: Seq<char>) -> bool {
    let k = mismatch(a, b, 0);
    if k < a.len() && k < b.len() {
        a[k] < b[k]
    } else {
        a.len() < b.len()
    }
}

/// `k` is where `a` and `b` first differ: they agree before `k`, and at `k`
/// they differ or one of them ends.
pub open spec fn is_mismatch(a: Seq<char>, b: Seq<char>, k: int) -> bool {
    &&& 0 <= k <= a.len()
    &&& k <= b.len()
    &&& forall|j: int| 0 <= j < k ==> a[j] == b[j]
    &&& (k == a.len() || k == b.len() || a[k] != b[k])
}

/// The names of `names` are in the order of the dictionary, and none comes
/// twice.
pub open spec fn names_ascend(names: Seq<Seq<char>>) -> bool {
    forall|i: int, j: int| 0 <= i < j < names.len() ==> lex_less(names[i], names[j])
}

/// What `mismatch` finds from `from` on is the first difference, provided
/// the two texts agree before `from`.
pub proof fn lemma_mismatch_from(a: Seq<char>, b: Seq<char>, from: int)
    requires
        0 <= from <= a.len(),
        from <= b.len(),
        forall|j: int| 0 <= j < from ==> a[j] == b[j],
    ensures
        is_mismatch(a, b, mismatch(a, b, from)),
        mismatch(a, b, from) >= from,
    decreases a.len() - from,
{
    if from >= a.len() || from >= b.len() || a[from] != b[from] {
    } else {
        lemma_mismatch_from(a, b, from + 1);
    }
}

/// Two texts have one first difference only.
pub proof fn lemma_mismatch_unique(a: Seq<char>, b: Seq<char>, k1: int, k2: int)
    requires
        is_mismatch(a, b, k1),
        is_mismatch(a, b, k2),
    ensures
        k1 == k2,
{
    if k1 < k2 {
        assert(a[k1] == b[k1]);
    }
    if k2 < k1 {
        assert(a[k2] == b[k2]);
    }
}

/// Where the first difference of `a` and `b` is `k`, it is what `mismatch`
/// finds.
pub proof fn lemma_mismatch_is(a: Seq<char>, b: Seq<char>, k: int)
    requires
        is_mismatch(a, b, k),
    ensures
        mismatch(a, b, 0) == k,
{
    lemma_mismatch_from(a, b, 0);
    lemma_mismatch_unique(a, b, k, mismatch(a, b, 0));
}

/// Of two texts exactly one holds: the first comes before the second, they
/// are equal, or the second comes before the first.
pub proof fn lemma_lex_trichotomy(a: Seq<char>, b: Seq<char>)
    ensures
        lex_less(a, b) || a == b || lex_less(b, a),
        !(lex_less(a, b) && lex_less(b, a)),
        !lex_less(a, a),
        a == b ==> !lex_less(a, b),
{
    lemma_mismatch_from(a, b, 0);
    let k = mismatch(a, b, 0);
    assert(is_mismatch(b, a, k));
    lemma_mismatch_is(b, a, k);
    if k == a.len() && k == b.len() {
        assert(a =~= b);
    }
    lemma_mismatch_from(a, a, 0);
    let ka = mismatch(a, a, 0);
    if ka < a.len() {
        assert(a[ka] == a[ka]);
    }
}

/// The order of the dictionary is transitive.
pub proof fn lemma_lex_transitive(a: Seq<char>, b: Seq<char>, c: Seq<char>)
    requires
        lex_less(a, b),
        lex_less(b, c),
    ensures
        lex_less(a, c),
{
    lemma_mismatch_from(a, b, 0);
    lemma_mismatch_from(b, c, 0);
    let k1 = mismatch(a, b, 0);
    let k2 = mismatch(b, c, 0);
    let k = if k1 <= k2 {
        k1
    } else {
        k2
    };
    assert forall|j: int| 0 <= j < k implies a[j] == c[j] by {
        assert(a[j] == b[j]);
        assert(b[j] == c[j]);
    }
    if k1 < k2 {
        assert(b[k1] == c[k1]);
        assert(is_mismatch(a, c, k1));
        lemma_mismatch_is(a, c, k1);
    } else if k2 < k1 {
        assert(a[k2] == b[k2]);
        assert(is_mismatch(a, c, k2));
        lemma_mismatch_is(a, c, k2);
    } else {
        assert(is_mismatch(a, c, k));
        lemma_mismatch_is(a, c, k);
    }
}

/// How two texts compare.
#[derive(Clone, Copy, Debug, PartialEq, Eq)]
pub enum Order {
    /// The first comes before the second.
    Before,
    /// The two are the same text.
    Same,
    /// The first comes after the second.
    After,
}

/// Compares two texts in the order of the dictionary.
pub fn compare(a: &Vec<char>, b: &Vec<char>) -> (r: Order)
    ensures
        r == Order::Before <==> lex_less(a@, b@),
        r == Order::Same <==> a@ == b@,
        r == Order::After <==> lex_less(b@, a@),
{
    let mut k: usize = 0;
    while k < a.len() && k < b.len() && a[k] == b[k]
        invariant
            k <= a.len(),
            k <= b.len(),
            forall|j: int| 0 <= j < k ==> a@[j] == b@[j],
        decreases a.len() - k,
    {
        k = k + 1;
    }
    proof {
        assert(is_mismatch(a@, b@, k as int));
        assert(is_mismatch(b@, a@, k as int));
        lemma_mismatch_is(a@, b@, k as int);
        lemma_mismatch_is(b@, a@, k as int);
        lemma_lex_trichotomy(a@, b@);
    }
    if k < a.len() && k < b.len() {
        if a[k] < b[k] {
            Order::Before
        } else {
            Order::After
        }
    } else if a.len() < b.len() {
        Order::Before
    } else if a.len() > b.len() {
        Order::After
    } else {
        Order::Same
    }
}

} // verus!
