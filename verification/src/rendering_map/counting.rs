//! Arithmetic of instance counts: how many instances lie below a mesh id,
//! and how often an id occurs in a list of objects.
use vstd::prelude::*;

verus! {

/// One past the largest `u64`: every mesh id is below it.
pub open spec fn key_space() -> nat {
    0x1_0000_0000_0000_0000
}

/// Number of instances that `m` records for the meshes whose id is below `n`.
pub open spec fn instances_below(m: Map<u64, (usize, usize, usize)>, n: nat) -> nat
    decreases n,
{
    if n == 0 {
        0
    } else {
        let k = (n - 1) as u64;
        instances_below(m, (n - 1) as nat) + if m.contains_key(k) {
            m[k].0 as nat
        } else {
            0
        }
    }
}

/// Number of instances that `m` records over all meshes.
pub open spec fn total_instances(m: Map<u64, (usize, usize, usize)>) -> nat {
    instances_below(m, key_space())
}

/// How many times `k` occurs in `s`.
pub open spec fn occurrences(s: Seq<u64>, k: u64) -> nat
    decreases s.len(),
{
    if s.len() == 0 {
        0
    } else {
        occurrences(s.drop_last(), k) + if s.last() == k {
            1nat
        } else {
            0nat
        }
    }
}

/// How many elements of `s` are below `n`.
pub open spec fn elements_below(s: Seq<u64>, n: nat) -> nat
    decreases s.len(),
{
    if s.len() == 0 {
        0
    } else {
        elements_below(s.drop_last(), n) + if (s.last() as nat) < n {
            1nat
        } else {
            0nat
        }
    }
}

/// Counting one more element of a prefix.
pub proof fn lemma_occurrences_push(s: Seq<u64>, i: int, k: u64)
    requires
        0 <= i < s.len(),
    ensures
        occurrences(s.take(i + 1), k) == occurrences(s.take(i), k) + if s[i] == k {
            1nat
        } else {
            0nat
        },
{
    assert(s.take(i + 1).drop_last() =~= s.take(i));
}

/// Longer prefixes hold at least as many occurrences.
pub proof fn lemma_occurrences_prefix_mono(s: Seq<u64>, i: int, j: int, k: u64)
    requires
        0 <= i <= j <= s.len(),
    ensures
        occurrences(s.take(i), k) <= occurrences(s.take(j), k),
    decreases j - i,
{
    if i < j {
        lemma_occurrences_prefix_mono(s, i, j - 1, k);
        lemma_occurrences_push(s, j - 1, k);
    }
}

/// An id that occurs in a list is an element of it.
pub proof fn lemma_occurrences_contains(s: Seq<u64>, k: u64)
    ensures
        occurrences(s, k) > 0 <==> s.contains(k),
    decreases s.len(),
{
    if s.len() > 0 {
        lemma_occurrences_contains(s.drop_last(), k);
        if s.drop_last().contains(k) {
            let i = choose|i: int| 0 <= i < s.drop_last().len() && s.drop_last()[i] == k;
            assert(s[i] == k);
        }
        if s.contains(k) {
            let i = choose|i: int| 0 <= i < s.len() && s[i] == k;
            if i < s.len() - 1 {
                assert(s.drop_last()[i] == k);
            }
        }
    }
}

/// Raising the bound by one counts the occurrences of the old bound.
pub proof fn lemma_elements_below_step(s: Seq<u64>, n: nat)
    requires
        n < key_space(),
    ensures
        elements_below(s, n + 1) == elements_below(s, n) + occurrences(s, n as u64),
    decreases s.len(),
{
    if s.len() > 0 {
        lemma_elements_below_step(s.drop_last(), n);
    }
}

/// Nothing is below zero.
pub proof fn lemma_elements_below_zero(s: Seq<u64>)
    ensures
        elements_below(s, 0) == 0,
    decreases s.len(),
{
    if s.len() > 0 {
        lemma_elements_below_zero(s.drop_last());
    }
}

/// Every `u64` is below the key space.
pub proof fn lemma_elements_below_all(s: Seq<u64>)
    ensures
        elements_below(s, key_space()) == s.len(),
    decreases s.len(),
{
    if s.len() > 0 {
        lemma_elements_below_all(s.drop_last());
    }
}

/// Raising the bound by one adds the instances of the mesh at the old bound.
pub proof fn lemma_instances_below_step(m: Map<u64, (usize, usize, usize)>, k: u64)
    ensures
        instances_below(m, k as nat + 1) == instances_below(m, k as nat) + if m.contains_key(k) {
            m[k].0 as nat
        } else {
            0
        },
{
    assert(((k as nat + 1) - 1) as u64 == k);
}

/// No mesh in `[a, b)`: nothing is added between the two bounds.
pub proof fn lemma_instances_below_gap(m: Map<u64, (usize, usize, usize)>, a: nat, b: nat)
    requires
        a <= b <= key_space(),
        forall|x: u64| a <= x < b ==> !m.contains_key(x),
    ensures
        instances_below(m, b) == instances_below(m, a),
    decreases b - a,
{
    if a < b {
        lemma_instances_below_gap(m, a, (b - 1) as nat);
        let k = (b - 1) as u64;
        assert(!m.contains_key(k));
    }
}

/// Counting below a larger bound never gives less.
pub proof fn lemma_instances_below_mono(m: Map<u64, (usize, usize, usize)>, a: nat, b: nat)
    requires
        a <= b,
    ensures
        instances_below(m, a) <= instances_below(m, b),
    decreases b - a,
{
    if a < b {
        lemma_instances_below_mono(m, a, (b - 1) as nat);
    }
}

/// Only the instance counts matter.
pub proof fn lemma_instances_below_same_counts(
    m1: Map<u64, (usize, usize, usize)>,
    m2: Map<u64, (usize, usize, usize)>,
    n: nat,
)
    requires
        m1.dom() == m2.dom(),
        forall|k: u64| m1.contains_key(k) ==> m1[k].0 == m2[k].0,
    ensures
        instances_below(m1, n) == instances_below(m2, n),
    decreases n,
{
    if n > 0 {
        lemma_instances_below_same_counts(m1, m2, (n - 1) as nat);
    }
}

/// When `m` counts the ids of `s`, the instances below a bound are the elements below it.
pub proof fn lemma_instances_match_elements(
    m: Map<u64, (usize, usize, usize)>,
    s: Seq<u64>,
    n: nat,
)
    requires
        n <= key_space(),
        m.dom() == s.to_set(),
        forall|k: u64| m.contains_key(k) ==> m[k].0 == occurrences(s, k),
    ensures
        instances_below(m, n) == elements_below(s, n),
    decreases n,
{
    if n == 0 {
        lemma_elements_below_zero(s);
    } else {
        let k = (n - 1) as u64;
        lemma_instances_match_elements(m, s, (n - 1) as nat);
        lemma_elements_below_step(s, (n - 1) as nat);
        lemma_occurrences_contains(s, k);
        assert(s.to_set().contains(k) <==> s.contains(k));
        assert(m.contains_key(k) <==> s.contains(k));
        assert(((n - 1) as nat) as u64 == k);
        assert((n - 1) as nat + 1 == n);
        assert(elements_below(s, n) == elements_below(s, (n - 1) as nat) + occurrences(s, k));
        if m.contains_key(k) {
            assert(m[k].0 as nat == occurrences(s, k));
        } else {
            assert(occurrences(s, k) == 0);
        }
        assert(instances_below(m, n) == instances_below(m, (n - 1) as nat) + if m.contains_key(k) {
            m[k].0 as nat
        } else {
            0
        });
    }
}

} // verus!
