//! The order of strings (`str`'s `Ord`: lexicographic by code point, which is
//! also the order of their UTF-8 bytes), and sorting by it.
use vstd::prelude::*;

use crate::strmap::strs;
use crate::text::chars_of;

verus! {

/// `a` is before `b` when both are compared from index `i` on.
pub open spec fn lt_from(a: Seq<char>, b: Seq<char>, i: nat) -> bool
    decreases a.len() - i,
{
    if i >= a.len() {
        i < b.len()
    } else if i >= b.len() {
        false
    } else if a[i as int] != b[i as int] {
        (a[i as int] as int) < (b[i as int] as int)
    } else {
        lt_from(a, b, i + 1)
    }
}

/// `a` sorts strictly before `b`.
pub open spec fn str_lt(a: Seq<char>, b: Seq<char>) -> bool {
    lt_from(a, b, 0)
}

/// The strings of `s` are in strictly increasing order.
pub open spec fn sorted_strict(s: Seq<Seq<char>>) -> bool {
    forall|i: int, j: int| 0 <= i < j < s.len() ==> str_lt(#[trigger] s[i], #[trigger] s[j])
}

proof fn lemma_lt_irrefl_from(a: Seq<char>, i: nat)
    ensures
        !lt_from(a, a, i),
    decreases a.len() - i,
{
    if i < a.len() {
        lemma_lt_irrefl_from(a, i + 1);
    }
}

/// No string sorts before itself.
pub proof fn lemma_lt_irrefl(a: Seq<char>)
    ensures
        !str_lt(a, a),
{
    lemma_lt_irrefl_from(a, 0);
}

proof fn lemma_lt_trans_from(a: Seq<char>, b: Seq<char>, c: Seq<char>, i: nat)
    requires
        lt_from(a, b, i),
        lt_from(b, c, i),
    ensures
        lt_from(a, c, i),
    decreases a.len() - i,
{
    if i >= a.len() {
    } else if i >= b.len() {
    } else if i >= c.len() {
    } else if a[i as int] != b[i as int] {
    } else if b[i as int] != c[i as int] {
    } else {
        lemma_lt_trans_from(a, b, c, i + 1);
    }
}

/// The order is transitive.
pub proof fn lemma_lt_trans(a: Seq<char>, b: Seq<char>, c: Seq<char>)
    requires
        str_lt(a, b),
        str_lt(b, c),
    ensures
        str_lt(a, c),
{
    lemma_lt_trans_from(a, b, c, 0);
}

proof fn lemma_lt_total_from(a: Seq<char>, b: Seq<char>, i: nat)
    requires
        i <= a.len(),
        i <= b.len(),
    ensures
        lt_from(a, b, i) || lt_from(b, a, i) || (a.len() == b.len() && forall|j: int|
            i <= j < a.len() ==> a[j] == b[j]),
    decreases a.len() - i,
{
    if i >= a.len() {
    } else if i >= b.len() {
    } else if a[i as int] != b[i as int] {
        assert((a[i as int] as int) != (b[i as int] as int));
    } else {
        lemma_lt_total_from(a, b, i + 1);
    }
}

/// Two different strings are ordered one way or the other.
pub proof fn lemma_lt_total(a: Seq<char>, b: Seq<char>)
    requires
        a != b,
    ensures
        str_lt(a, b) || str_lt(b, a),
{
    lemma_lt_total_from(a, b, 0);
    if !str_lt(a, b) && !str_lt(b, a) {
        assert(a =~= b);
    }
}

/// Two strictly sorted sequences with the same members are equal.
pub proof fn lemma_sorted_same_members(s: Seq<Seq<char>>, t: Seq<Seq<char>>)
    requires
        sorted_strict(s),
        sorted_strict(t),
        forall|x: Seq<char>| s.contains(x) <==> t.contains(x),
    ensures
        s == t,
    decreases s.len(),
{
    if s.len() == 0 {
        if t.len() > 0 {
            assert(t.contains(t[0]));
        }
        assert(s =~= t);
    } else {
        assert(s.contains(s[0]));
        assert(t.len() > 0);
        assert(t.contains(t[0]));
        if s[0] != t[0] {
            let i = choose|i: int| 0 <= i < s.len() && s[i] == t[0];
            let j = choose|j: int| 0 <= j < t.len() && t[j] == s[0];
            assert(i > 0 && j > 0);
            assert(str_lt(s[0], s[i]));
            assert(str_lt(t[0], t[j]));
            lemma_lt_trans(s[0], t[0], s[0]);
            lemma_lt_irrefl(s[0]);
        }
        let s1 = s.drop_first();
        let t1 = t.drop_first();
        assert forall|x: Seq<char>| s1.contains(x) <==> t1.contains(x) by {
            if s1.contains(x) {
                let i = choose|i: int| 0 <= i < s1.len() && s1[i] == x;
                assert(s[i + 1] == x);
                assert(str_lt(s[0], s[i + 1]));
                lemma_lt_irrefl(x);
                assert(t.contains(x));
                let j = choose|j: int| 0 <= j < t.len() && t[j] == x;
                assert(j != 0);
                assert(t1[j - 1] == x);
            }
            if t1.contains(x) {
                let j = choose|j: int| 0 <= j < t1.len() && t1[j] == x;
                assert(t[j + 1] == x);
                assert(str_lt(t[0], t[j + 1]));
                lemma_lt_irrefl(x);
                assert(s.contains(x));
                let i = choose|i: int| 0 <= i < s.len() && s[i] == x;
                assert(i != 0);
                assert(s1[i - 1] == x);
            }
        }
        lemma_sorted_same_members(s1, t1);
        assert(s =~= seq![s[0]] + s1);
        assert(t =~= seq![t[0]] + t1);
    }
}

/// Whether `a` sorts strictly before `b`.
pub fn chars_lt(a: &Vec<char>, b: &Vec<char>) -> (r: bool)
    ensures
        r == str_lt(a@, b@),
{
    let mut i: usize = 0;
    while i < a.len() && i < b.len() && a[i] == b[i]
        invariant
            i <= a.len(),
            i <= b.len(),
            lt_from(a@, b@, i as nat) == str_lt(a@, b@),
        decreases a.len() - i,
    {
        i = i + 1;
    }
    if i >= a.len() {
        i < b.len()
    } else if i >= b.len() {
        false
    } else {
        a[i] < b[i]
    }
}

/// Whether `a` sorts strictly before `b`.
pub fn str_less(a: &str, b: &str) -> (r: bool)
    ensures
        r == str_lt(a@, b@),
{
    let va = chars_of(a);
    let vb = chars_of(b);
    chars_lt(&va, &vb)
}

/// Sorts strings that are pairwise different into increasing order.
pub fn sort_strings(v: Vec<String>) -> (r: Vec<String>)
    requires
        strs(v@).no_duplicates(),
    ensures
        sorted_strict(strs(r@)),
        strs(r@).to_set() == strs(v@).to_set(),
        r.len() == v.len(),
        strs(r@).no_duplicates(),
{
    let mut out: Vec<String> = Vec::new();
    let mut i: usize = 0;
    while i < v.len()
        invariant
            i <= v.len(),
            strs(v@).no_duplicates(),
            sorted_strict(strs(out@)),
            strs(out@).to_set() == strs(v@.take(i as int)).to_set(),
            out.len() == i,
            strs(out@).no_duplicates(),
        decreases v.len() - i,
    {
        let x = v[i].clone();
        let ghost xv = x@;
        let ghost before = strs(out@);
        proof {
            assert(strs(v@)[i as int] == xv);
            if before.contains(xv) {
                let k = before.index_of(xv);
                assert(before.to_set().contains(xv));
                assert(strs(v@.take(i as int)).to_set().contains(xv));
                let m = choose|m: int| 0 <= m < i && strs(v@.take(i as int))[m] == xv;
                assert(strs(v@)[m] == xv);
                assert(false);
            }
        }
        let mut p: usize = 0;
        while p < out.len()
            invariant
                p <= out.len(),
                strs(out@) == before,
                forall|q: int| 0 <= q < p ==> str_lt(#[trigger] before[q], xv),
                !before.contains(xv),
                x@ == xv,
            ensures
                p <= out.len(),
                strs(out@) == before,
                forall|q: int| 0 <= q < p ==> str_lt(#[trigger] before[q], xv),
                p < out.len() ==> str_lt(xv, before[p as int]),
                !before.contains(xv),
                x@ == xv,
            decreases out.len() - p,
        {
            if str_less(x.as_str(), out[p].as_str()) {
                proof {
                    assert(before[p as int] == out@[p as int]@);
                }
                break;
            }
            proof {
                assert(before[p as int] == out@[p as int]@);
                assert(before[p as int] != xv);
                lemma_lt_total(xv, before[p as int]);
            }
            p = p + 1;
        }
        out.insert(p, x);
        proof {
            let after = strs(out@);
            assert(after =~= before.subrange(0, p as int).push(xv) + before.subrange(
                p as int,
                before.len() as int,
            ));
            assert forall|a: int, b: int| 0 <= a < b < after.len() implies str_lt(
                #[trigger] after[a],
                #[trigger] after[b],
            ) by {
                if b < p {
                    assert(after[a] == before[a] && after[b] == before[b]);
                } else if b == p {
                    assert(after[a] == before[a]);
                } else if a < p {
                    assert(after[a] == before[a] && after[b] == before[b - 1]);
                    if b - 1 > p {
                        lemma_lt_trans(xv, before[p as int], before[b - 1]);
                    }
                    lemma_lt_trans(before[a], xv, before[b - 1]);
                } else if a == p {
                    assert(after[b] == before[b - 1]);
                    if b - 1 > p {
                        lemma_lt_trans(xv, before[p as int], before[b - 1]);
                    }
                } else {
                    assert(after[a] == before[a - 1] && after[b] == before[b - 1]);
                }
            }
            assert(strs(v@.take(i + 1)) =~= strs(v@.take(i as int)).push(xv));
            assert(after.to_set() =~= before.to_set().insert(xv)) by {
                assert forall|y: Seq<char>| after.contains(y) implies before.to_set().insert(
                    y,
                ).contains(y) by {}
                assert forall|y: Seq<char>| #[trigger] after.to_set().contains(y) <==> before.to_set().insert(xv).contains(y) by {
                    if after.contains(y) {
                        let k = choose|k: int| 0 <= k < after.len() && after[k] == y;
                        if k < p {
                            assert(before[k] == y);
                        } else if k > p {
                            assert(before[k - 1] == y);
                        }
                    }
                    if before.contains(y) {
                        let k = choose|k: int| 0 <= k < before.len() && before[k] == y;
                        if k < p {
                            assert(after[k] == y);
                        } else {
                            assert(after[k + 1] == y);
                        }
                    }
                    if y == xv {
                        assert(after[p as int] == y);
                    }
                }
            }
            assert(strs(v@.take(i + 1)).to_set() =~= strs(v@.take(i as int)).to_set().insert(
                xv,
            )) by {
                assert forall|y: Seq<char>| #[trigger] strs(v@.take(i + 1)).to_set().contains(y)
                    <==> strs(v@.take(i as int)).to_set().insert(xv).contains(y) by {
                    let s1 = strs(v@.take(i + 1));
                    let s0 = strs(v@.take(i as int));
                    if s1.contains(y) {
                        let k = choose|k: int| 0 <= k < s1.len() && s1[k] == y;
                        if k < i {
                            assert(s0[k] == y);
                        }
                    }
                    if s0.contains(y) {
                        let k = choose|k: int| 0 <= k < s0.len() && s0[k] == y;
                        assert(s1[k] == y);
                    }
                    if y == xv {
                        assert(s1[i as int] == y);
                    }
                }
            }
            assert forall|a: int, b: int|
                0 <= a < after.len() && 0 <= b < after.len() && a != b implies after[a]
                != after[b] by {
                if a < b {
                    lemma_lt_irrefl(after[a]);
                } else {
                    lemma_lt_irrefl(after[b]);
                }
            }
        }
        i = i + 1;
    }
    proof {
        assert(v@.take(v.len() as int) =~= v@);
    }
    out
}

} // verus!
