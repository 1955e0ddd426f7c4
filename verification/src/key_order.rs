//! Ordered enumeration of the keys of a `BTreeMap` keyed by `u64`.
use vstd::prelude::*;
use vstd::std_specs::iter::IteratorSpec;
use vstd::std_specs::cmp::OrdSpec;
use std::collections::BTreeMap;

verus! {

/// Every element of `ks` is smaller than every element after it.
pub open spec fn strictly_ascending(ks: Seq<u64>) -> bool {
    forall|i: int, j: int| 0 <= i < j < ks.len() ==> ks[i] < ks[j]
}

/// The elements of a finite set of keys, listed from the smallest to the largest.
pub open spec fn ascending_keys(s: Set<u64>) -> Seq<u64> {
    choose|ks: Seq<u64>| strictly_ascending(ks) && ks.to_set() == s
}

/// Two ascending listings of the same set are the same listing.
pub proof fn lemma_ascending_unique(a: Seq<u64>, b: Seq<u64>)
    requires
        strictly_ascending(a),
        strictly_ascending(b),
        a.to_set() == b.to_set(),
    ensures
        a == b,
    decreases a.len(),
{
    if a.len() == 0 {
        if b.len() > 0 {
            assert(b.to_set().contains(b[0]));
            assert(a.to_set().contains(b[0]));
        }
        assert(a =~= b);
    } else {
        assert(a.to_set().contains(a[0]));
        assert(b.to_set().contains(a[0]));
        assert(b.len() > 0);
        assert(b.to_set().contains(b[0]));
        assert(a.to_set().contains(b[0]));
        let p = choose|p: int| 0 <= p < b.len() && b[p] == a[0];
        let q = choose|q: int| 0 <= q < a.len() && a[q] == b[0];
        assert(b[0] <= a[0]) by {
            if p > 0 {
                assert(b[0] < b[p]);
            }
        }
        assert(a[0] <= b[0]) by {
            if q > 0 {
                assert(a[0] < a[q]);
            }
        }
        let a1 = a.drop_first();
        let b1 = b.drop_first();
        assert forall|x: u64| a1.to_set().contains(x) implies b1.to_set().contains(x) by {
            let i = choose|i: int| 0 <= i < a1.len() && a1[i] == x;
            assert(a.to_set().contains(a[i + 1]));
            assert(b.to_set().contains(x));
            let j = choose|j: int| 0 <= j < b.len() && b[j] == x;
            assert(a[0] < a[i + 1]);
            assert(j != 0);
            assert(b1[j - 1] == x);
        }
        assert forall|x: u64| b1.to_set().contains(x) implies a1.to_set().contains(x) by {
            let i = choose|i: int| 0 <= i < b1.len() && b1[i] == x;
            assert(b.to_set().contains(b[i + 1]));
            assert(a.to_set().contains(x));
            let j = choose|j: int| 0 <= j < a.len() && a[j] == x;
            assert(b[0] < b[i + 1]);
            assert(j != 0);
            assert(a1[j - 1] == x);
        }
        assert(a1.to_set() =~= b1.to_set());
        lemma_ascending_unique(a1, b1);
        assert(a =~= b) by {
            assert forall|i: int| 0 <= i < a.len() implies a[i] == b[i] by {
                if i > 0 {
                    assert(a[i] == a1[i - 1]);
                    assert(b[i] == b1[i - 1]);
                }
            }
        }
    }
}

/// An ascending listing of a set is the one that `ascending_keys` names.
pub proof fn lemma_ascending_keys_is(ks: Seq<u64>, s: Set<u64>)
    requires
        strictly_ascending(ks),
        ks.to_set() == s,
    ensures
        ascending_keys(s) == ks,
{
    let w = ascending_keys(s);
    assert(strictly_ascending(w) && w.to_set() == s);
    lemma_ascending_unique(w, ks);
}

/// The keys of `s` below `n`, listed in ascending order.
proof fn ascending_below(s: Set<u64>, n: nat) -> (ks: Seq<u64>)
    requires
        n <= 0x1_0000_0000_0000_0000,
    ensures
        strictly_ascending(ks),
        forall|i: int| 0 <= i < ks.len() ==> (ks[i] as nat) < n,
        forall|x: u64| ks.to_set().contains(x) <==> (s.contains(x) && (x as nat) < n),
    decreases n,
{
    if n == 0 {
        Seq::empty()
    } else {
        let prev = ascending_below(s, (n - 1) as nat);
        let x = (n - 1) as u64;
        if s.contains(x) {
            let ks = prev.push(x);
            assert forall|y: u64| ks.to_set().contains(y) <==> (s.contains(y) && (y as nat) < n) by {
                if ks.to_set().contains(y) {
                    let t = choose|t: int| 0 <= t < ks.len() && ks[t] == y;
                    if t < prev.len() {
                        assert(prev.to_set().contains(y));
                    }
                }
                if s.contains(y) && (y as nat) < n {
                    if y == x {
                        assert(ks[prev.len() as int] == y);
                    } else {
                        assert(prev.to_set().contains(y));
                        let t = choose|t: int| 0 <= t < prev.len() && prev[t] == y;
                        assert(ks[t] == y);
                    }
                }
            }
            ks
        } else {
            prev
        }
    }
}

/// Every set of keys has an ascending listing: `ascending_keys` is one.
pub proof fn lemma_ascending_keys_exist(s: Set<u64>)
    ensures
        strictly_ascending(ascending_keys(s)),
        ascending_keys(s).to_set() == s,
{
    let ks = ascending_below(s, 0x1_0000_0000_0000_0000);
    assert(ks.to_set() =~= s);
    lemma_ascending_keys_is(ks, s);
}

/// Extending a prefix by one element adds that element to its set.
pub proof fn lemma_prefix_set_push(s: Seq<u64>, i: int)
    requires
        0 <= i < s.len(),
    ensures
        s.take(i + 1).to_set() == s.take(i).to_set().insert(s[i]),
{
    let pre = s.take(i);
    let post = s.take(i + 1);
    assert forall|x: u64| post.to_set().contains(x) implies pre.to_set().insert(s[i]).contains(x) by {
        let t = choose|t: int| 0 <= t < post.len() && post[t] == x;
        if t < i {
            assert(pre[t] == x);
        }
    }
    assert forall|x: u64| pre.to_set().insert(s[i]).contains(x) implies post.to_set().contains(x) by {
        if x == s[i] {
            assert(post[i] == x);
        } else {
            let t = choose|t: int| 0 <= t < pre.len() && pre[t] == x;
            assert(post[t] == x);
        }
    }
    assert(post.to_set() =~= pre.to_set().insert(s[i]));
}

/// Extending a prefix by one element adds that element to its set.
pub proof fn lemma_prefix_set_push_any<T>(s: Seq<T>, i: int)
    requires
        0 <= i < s.len(),
    ensures
        s.take(i + 1).to_set() == s.take(i).to_set().insert(s[i]),
{
    let pre = s.take(i);
    let post = s.take(i + 1);
    assert forall|x: T| post.to_set().contains(x) implies pre.to_set().insert(s[i]).contains(x) by {
        let t = choose|t: int| 0 <= t < post.len() && post[t] == x;
        if t < i {
            assert(pre[t] == x);
        }
    }
    assert forall|x: T| pre.to_set().insert(s[i]).contains(x) implies post.to_set().contains(x) by {
        if x == s[i] {
            assert(post[i] == x);
        } else {
            let t = choose|t: int| 0 <= t < pre.len() && pre[t] == x;
            assert(post[t] == x);
        }
    }
    assert(post.to_set() =~= pre.to_set().insert(s[i]));
}

/// Extending a prefix by one element adds that element to its set.
pub proof fn lemma_prefix_u32_set_push(s: Seq<u32>, i: int)
    requires
        0 <= i < s.len(),
    ensures
        s.take(i + 1).to_set() == s.take(i).to_set().insert(s[i]),
{
    let pre = s.take(i);
    let post = s.take(i + 1);
    assert forall|x: u32| post.to_set().contains(x) implies pre.to_set().insert(s[i]).contains(x) by {
        let t = choose|t: int| 0 <= t < post.len() && post[t] == x;
        if t < i {
            assert(pre[t] == x);
        }
    }
    assert forall|x: u32| pre.to_set().insert(s[i]).contains(x) implies post.to_set().contains(x) by {
        if x == s[i] {
            assert(post[i] == x);
        } else {
            let t = choose|t: int| 0 <= t < pre.len() && pre[t] == x;
            assert(post[t] == x);
        }
    }
    assert(post.to_set() =~= pre.to_set().insert(s[i]));
}

/// The keys of `m`, smallest first.
pub fn sorted_keys<V>(m: &BTreeMap<u64, V>) -> (keys: Vec<u64>)
    ensures
        keys@ == ascending_keys(m@.dom()),
        strictly_ascending(keys@),
        keys@.to_set() == m@.dom(),
{
    broadcast use vstd::std_specs::btree::group_btree_axioms;
    let mut out: Vec<u64> = Vec::new();
    for k in it: m.keys()
        invariant
            out@.len() == it.index(),
            forall|i: int| 0 <= i < it.index() ==> out@[i] == *it.seq()[i],
            it.seq() == vstd::std_specs::btree::spec_keys_iter(m).remaining(),
    {
        out.push(*k);
    }
    proof {
        let ks = vstd::std_specs::btree::spec_keys_iter(m).remaining();
        assert(out@ =~= ks.unref());
        vstd::std_specs::btree::axiom_spec_keys_iter(m);
        broadcast use vstd::laws_cmp::lemma_ref_obeys_cmp_spec;
        vstd::std_specs::btree::axiom_increasing_seq_meaning::<&u64>(ks);
        assert forall|i: int, j: int| 0 <= i < j < out@.len() implies out@[i] < out@[j] by {
            assert(OrdSpec::cmp_spec(&ks[i], &ks[j]) is Less);
        }
        lemma_ascending_keys_is(out@, m@.dom());
    }
    out
}

/// The slots of `m`, smallest first.
pub fn sorted_slots<V>(m: &BTreeMap<u32, V>) -> (keys: Vec<u32>)
    ensures
        keys@.to_set() == m@.dom(),
        keys@.len() == m@.dom().len(),
        forall|i: int, j: int| 0 <= i < j < keys@.len() ==> keys@[i] < keys@[j],
{
    broadcast use vstd::std_specs::btree::group_btree_axioms;
    let mut out: Vec<u32> = Vec::new();
    for k in it: m.keys()
        invariant
            out@.len() == it.index(),
            forall|i: int| 0 <= i < it.index() ==> out@[i] == *it.seq()[i],
            it.seq() == vstd::std_specs::btree::spec_keys_iter(m).remaining(),
    {
        out.push(*k);
    }
    proof {
        let ks = vstd::std_specs::btree::spec_keys_iter(m).remaining();
        assert(out@ =~= ks.unref());
        vstd::std_specs::btree::axiom_spec_keys_iter(m);
        broadcast use vstd::laws_cmp::lemma_ref_obeys_cmp_spec;
        vstd::std_specs::btree::axiom_increasing_seq_meaning::<&u32>(ks);
        assert forall|i: int, j: int| 0 <= i < j < out@.len() implies out@[i] < out@[j] by {
            assert(OrdSpec::cmp_spec(&ks[i], &ks[j]) is Less);
        }
    }
    out
}

} // verus!
