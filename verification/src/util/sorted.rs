//! Strictly ascending sequences: the shape in which the library keeps its
//! sets, so that equal sets are equal values.

use vstd::prelude::*;

verus! {

/// `before` is irreflexive and transitive.
pub open spec fn strict_order<K>(before: spec_fn(K, K) -> bool) -> bool {
    &&& forall|a: K| !#[trigger] before(a, a)
    &&& forall|a: K, b: K, c: K| #[trigger]
        before(a, b) && #[trigger] before(b, c) ==> before(a, c)
}

/// Every element of `s` stands before all that follow it.
pub open spec fn ascending<K>(s: Seq<K>, before: spec_fn(K, K) -> bool) -> bool {
    forall|i: int, j: int| 0 <= i < j < s.len() ==> before(#[trigger] s[i], #[trigger] s[j])
}

/// An ascending sequence holds nothing twice.
pub proof fn lemma_ascending_no_duplicates<K>(s: Seq<K>, before: spec_fn(K, K) -> bool)
    requires
        strict_order(before),
        ascending(s, before),
    ensures
        s.no_duplicates(),
{
    assert forall|i: int, j: int| 0 <= i < s.len() && 0 <= j < s.len() && i != j implies s[i]
        != s[j] by {
        if i < j {
            assert(before(s[i], s[j]));
        } else {
            assert(before(s[j], s[i]));
        }
    }
}

/// Putting `x` between the elements before it and those after it keeps the
/// sequence ascending.
pub proof fn lemma_ascending_insert<K>(s: Seq<K>, x: K, p: int, before: spec_fn(K, K) -> bool)
    requires
        strict_order(before),
        ascending(s, before),
        0 <= p <= s.len(),
        forall|i: int| 0 <= i < p ==> before(#[trigger] s[i], x),
        p < s.len() ==> before(x, s[p]),
    ensures
        ascending(s.insert(p, x), before),
        s.insert(p, x).to_set() == s.to_set().insert(x),
{
    let t = s.insert(p, x);
    assert forall|i: int, j: int| 0 <= i < j < t.len() implies before(
        #[trigger] t[i],
        #[trigger] t[j],
    ) by {
        if j < p {
            assert(t[i] == s[i] && t[j] == s[j]);
        } else if j == p {
            assert(t[i] == s[i]);
        } else if i < p {
            assert(t[i] == s[i] && t[j] == s[j - 1]);
            if i < j - 1 {
                assert(before(s[i], s[j - 1]));
            }
        } else if i == p {
            assert(t[j] == s[j - 1]);
            if p < j - 1 {
                assert(before(s[p], s[j - 1]));
            }
        } else {
            assert(t[i] == s[i - 1] && t[j] == s[j - 1]);
        }
    }
    assert forall|y: K| t.to_set().contains(y) <==> s.to_set().insert(x).contains(y) by {
        if t.to_set().contains(y) {
            let i = choose|i: int| 0 <= i < t.len() && t[i] == y;
            if i < p {
                assert(s[i] == y);
            } else if i > p {
                assert(s[i - 1] == y);
            }
        }
        if s.to_set().contains(y) {
            let i = choose|i: int| 0 <= i < s.len() && s[i] == y;
            if i < p {
                assert(t[i] == y);
            } else {
                assert(t[i + 1] == y);
            }
        }
        if y == x {
            assert(t[p] == y);
        }
    }
    assert(t.to_set() =~= s.to_set().insert(x));
}

/// Taking an element out keeps the sequence ascending.
pub proof fn lemma_ascending_remove<K>(s: Seq<K>, p: int, before: spec_fn(K, K) -> bool)
    requires
        strict_order(before),
        ascending(s, before),
        0 <= p < s.len(),
    ensures
        ascending(s.remove(p), before),
        s.remove(p).to_set() == s.to_set().remove(s[p]),
{
    let t = s.remove(p);
    lemma_ascending_no_duplicates(s, before);
    assert forall|i: int, j: int| 0 <= i < j < t.len() implies before(
        #[trigger] t[i],
        #[trigger] t[j],
    ) by {
        let si = if i < p { i } else { i + 1 };
        let sj = if j < p { j } else { j + 1 };
        assert(t[i] == s[si] && t[j] == s[sj]);
        assert(before(s[si], s[sj]));
    }
    assert forall|y: K| t.to_set().contains(y) <==> s.to_set().remove(s[p]).contains(y) by {
        if t.to_set().contains(y) {
            let i = choose|i: int| 0 <= i < t.len() && t[i] == y;
            let si = if i < p { i } else { i + 1 };
            assert(s[si] == y);
        }
        if s.to_set().contains(y) && y != s[p] {
            let i = choose|i: int| 0 <= i < s.len() && s[i] == y;
            if i < p {
                assert(t[i] == y);
            } else {
                assert(t[i - 1] == y);
            }
        }
    }
    assert(t.to_set() =~= s.to_set().remove(s[p]));
}

/// In an ascending sequence whose elements before `p` stand before `x` and
/// whose element at `p`, if any, stands after `x`, `x` does not occur.
pub proof fn lemma_ascending_absent<K>(s: Seq<K>, x: K, p: int, before: spec_fn(K, K) -> bool)
    requires
        strict_order(before),
        ascending(s, before),
        0 <= p <= s.len(),
        forall|i: int| 0 <= i < p ==> before(#[trigger] s[i], x),
        p < s.len() ==> before(x, s[p]),
    ensures
        !s.contains(x),
{
    if s.contains(x) {
        let i = choose|i: int| 0 <= i < s.len() && s[i] == x;
        if i < p {
            assert(before(s[i], x));
        } else if i == p {
        } else {
            assert(before(s[p], s[i]));
        }
    }
}

/// Two ascending sequences with the same elements are the same sequence.
pub proof fn lemma_ascending_unique<K>(s: Seq<K>, t: Seq<K>, before: spec_fn(K, K) -> bool)
    requires
        strict_order(before),
        ascending(s, before),
        ascending(t, before),
        s.to_set() == t.to_set(),
    ensures
        s == t,
    decreases s.len(),
{
    lemma_ascending_no_duplicates(s, before);
    lemma_ascending_no_duplicates(t, before);
    s.unique_seq_to_set();
    t.unique_seq_to_set();
    if s.len() == 0 {
        assert(s =~= t);
    } else {
        let x = s[0];
        assert(s.to_set().contains(x));
        assert(t.to_set().contains(x));
        let k = choose|k: int| 0 <= k < t.len() && t[k] == x;
        let y = t[0];
        assert(t.to_set().contains(y));
        assert(s.to_set().contains(y));
        let m = choose|m: int| 0 <= m < s.len() && s[m] == y;
        if k != 0 {
            assert(before(t[0], t[k]));
            if m != 0 {
                assert(before(s[0], s[m]));
            }
        }
        assert(x == y);
        lemma_ascending_remove(s, 0, before);
        lemma_ascending_remove(t, 0, before);
        lemma_ascending_unique(s.remove(0), t.remove(0), before);
        assert(s =~= seq![x] + s.remove(0));
        assert(t =~= seq![y] + t.remove(0));
    }
}

/// The elements of a prefix that is one longer are those of the prefix and
/// the element that follows it.
pub proof fn lemma_prefix_set_step<K>(s: Seq<K>, n: int)
    requires
        0 <= n < s.len(),
    ensures
        s.take(n + 1).to_set() == s.take(n).to_set().insert(s[n]),
{
    let shorter = s.take(n);
    let longer = s.take(n + 1);
    assert forall|y: K| longer.to_set().contains(y) <==> shorter.to_set().insert(s[n]).contains(
        y,
    ) by {
        if longer.to_set().contains(y) {
            let k = choose|k: int| 0 <= k < longer.len() && longer[k] == y;
            if k < n {
                assert(shorter[k] == y);
            }
        }
        if shorter.to_set().contains(y) {
            let k = choose|k: int| 0 <= k < shorter.len() && shorter[k] == y;
            assert(longer[k] == y);
        }
        if y == s[n] {
            assert(longer[n] == y);
        }
    }
    assert(longer.to_set() =~= shorter.to_set().insert(s[n]));
}

} // verus!
