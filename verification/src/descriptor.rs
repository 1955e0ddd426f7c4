//! Descriptor kinds used by the pipelines' uniforms, and how many
//! descriptors of each kind a pipeline's descriptor pool must hold.
use vstd::prelude::*;

verus! {

/// The kinds of descriptors the pipelines use.
#[derive(Clone, Copy, Debug, PartialEq, Eq, Structural)]
pub enum DescriptorKind {
    /// Per frame uniforms.
    UniformBuffer,
    /// Per object uniforms.
    StorageBuffer,
    /// Per object uniforms addressed with a dynamic offset.
    UniformBufferDynamic,
    /// Textures.
    CombinedImageSampler,
}

/// What a uniform's GPU buffer is used as.
#[derive(Clone, Copy, Debug, PartialEq, Eq, Structural)]
pub enum BufferUsage {
    Uniform,
    Storage,
}

/// The buffer usage that a buffer behind a descriptor of this kind needs:
/// only uniform and storage buffers back a uniform buffer.
pub fn buffer_usage_for(kind: DescriptorKind) -> (r: BufferUsage)
    requires
        kind == DescriptorKind::UniformBuffer || kind == DescriptorKind::StorageBuffer,
    ensures
        kind == DescriptorKind::UniformBuffer ==> r == BufferUsage::Uniform,
        kind == DescriptorKind::StorageBuffer ==> r == BufferUsage::Storage,
{
    match kind {
        DescriptorKind::UniformBuffer => BufferUsage::Uniform,
        _ => BufferUsage::Storage,
    }
}

/// How many times `k` occurs in `s`.
pub open spec fn kind_count(s: Seq<DescriptorKind>, k: DescriptorKind) -> nat
    decreases s.len(),
{
    if s.len() == 0 {
        0
    } else {
        kind_count(s.drop_last(), k) + if s.last() == k {
            1nat
        } else {
            0nat
        }
    }
}

proof fn lemma_kind_count_push(s: Seq<DescriptorKind>, i: int, k: DescriptorKind)
    requires
        0 <= i < s.len(),
    ensures
        kind_count(s.take(i + 1), k) == kind_count(s.take(i), k) + if s[i] == k {
            1nat
        } else {
            0nat
        },
{
    assert(s.take(i + 1).drop_last() =~= s.take(i));
}

proof fn lemma_kind_count_bounded(s: Seq<DescriptorKind>, k: DescriptorKind)
    ensures
        kind_count(s, k) <= s.len(),
        kind_count(s, k) > 0 <==> s.contains(k),
    decreases s.len(),
{
    if s.len() > 0 {
        lemma_kind_count_bounded(s.drop_last(), k);
        if s.drop_last().contains(k) {
            let i = choose|i: int| 0 <= i < s.drop_last().len() && s.drop_last()[i] == k;
            assert(s[i] == k);
        }
        if s.contains(k) {
            let i = choose|i: int| 0 <= i < s.len() && s[i] == k;
            if i < s.len() - 1 {
                assert(s.drop_last()[i] == k);
            }
        }
    }
}

/// Where the entry for `kind` stands in `counts`, if it has one.
fn position_of(counts: &Vec<(DescriptorKind, usize)>, kind: DescriptorKind) -> (r: Option<usize>)
    ensures
        match r {
            Some(p) => p < counts@.len() && counts@[p as int].0 == kind,
            None => forall|t: int| 0 <= t < counts@.len() ==> (#[trigger] counts@[t]).0 != kind,
        },
{
    let mut j: usize = 0;
    while j < counts.len()
        invariant
            0 <= j <= counts@.len(),
            forall|t: int| 0 <= t < j ==> (#[trigger] counts@[t]).0 != kind,
        decreases counts@.len() - j,
    {
        if counts[j].0 == kind {
            return Some(j);
        }
        j = j + 1;
    }
    None
}

/// The pool sizes of a pipeline's descriptor pool, for uniforms whose
/// descriptor kinds are `kinds` (resource, then frame, then object
/// uniforms), each with one descriptor set per swapchain image: one entry per
/// kind, holding its number of descriptors; and the number of descriptor sets
/// in all.
pub fn descriptor_pool_sizes(kinds: &[DescriptorKind], image_count: usize) -> (r: (
    Vec<(DescriptorKind, u32)>,
    u32,
))
    requires
        kinds@.len() * image_count <= usize::MAX,
    ensures
        r.0@.map_values(|e: (DescriptorKind, u32)| e.0).no_duplicates(),
        r.0@.map_values(|e: (DescriptorKind, u32)| e.0).to_set() == kinds@.to_set(),
        forall|i: int|
            0 <= i < r.0@.len() ==> (#[trigger] r.0@[i]).1 == (kind_count(kinds@, r.0@[i].0)
                * image_count) as u32,
        r.1 == (kinds@.len() * image_count) as u32,
{
    let descriptor_set_count = kinds.len() * image_count;
    // for each layout type, we count how many descriptor sets we need.
    let mut counts: Vec<(DescriptorKind, usize)> = Vec::new();
    let mut i: usize = 0;
    while i < kinds.len()
        invariant
            0 <= i <= kinds@.len(),
            kinds@.len() * image_count <= usize::MAX,
            counts@.map_values(|e: (DescriptorKind, usize)| e.0).no_duplicates(),
            counts@.map_values(|e: (DescriptorKind, usize)| e.0).to_set() == kinds@.take(
                i as int,
            ).to_set(),
            forall|t: int|
                0 <= t < counts@.len() ==> (#[trigger] counts@[t]).1 == kind_count(
                    kinds@.take(i as int),
                    counts@[t].0,
                ) * image_count,
        decreases kinds@.len() - i,
    {
        let kind = kinds[i];
        let ghost before = counts@;
        let ghost old_keys = before.map_values(|e: (DescriptorKind, usize)| e.0);
        let ghost pre = kinds@.take(i as int);
        let ghost post = kinds@.take(i + 1);
        proof {
            crate::key_order::lemma_prefix_set_push_any(kinds@, i as int);
        }
        match position_of(&counts, kind) {
            Some(p) => {
                let c = counts[p].1;
                proof {
                    lemma_kind_count_push(kinds@, i as int, kind);
                    lemma_kind_count_bounded(post, kind);
                    let a = kind_count(pre, kind);
                    assert(c + image_count <= kinds@.len() * image_count) by (nonlinear_arith)
                        requires
                            c == a * image_count,
                            a + 1 <= i + 1,
                            i + 1 <= kinds@.len(),
                    ;
                }
                counts.set(p, (kind, c + image_count));
                proof {
                    let keys = counts@.map_values(|e: (DescriptorKind, usize)| e.0);
                    assert(keys =~= old_keys);
                    assert(old_keys[p as int] == kind);
                    assert(old_keys.to_set().insert(kind) =~= old_keys.to_set());
                    assert forall|t: int| 0 <= t < counts@.len() implies (#[trigger] counts@[t]).1
                        == kind_count(post, counts@[t].0) * image_count by {
                        let k = counts@[t].0;
                        lemma_kind_count_push(kinds@, i as int, k);
                        let a = kind_count(pre, k);
                        assert((a + 1) * image_count == a * image_count + image_count)
                            by (nonlinear_arith);
                        if t != p {
                            assert(old_keys[t] != old_keys[p as int]);
                            assert(counts@[t] == before[t]);
                        }
                    }
                }
            },
            None => {
                proof {
                    lemma_kind_count_bounded(pre, kind);
                    assert(!old_keys.contains(kind)) by {
                        if old_keys.contains(kind) {
                            let t = choose|t: int| 0 <= t < old_keys.len() && old_keys[t] == kind;
                            assert(before[t].0 == kind);
                        }
                    }
                    assert(!old_keys.to_set().contains(kind));
                    assert(!pre.contains(kind)) by {
                        if pre.contains(kind) {
                            let t = choose|t: int| 0 <= t < pre.len() && pre[t] == kind;
                            assert(pre.to_set().contains(pre[t]));
                        }
                    }
                }
                counts.push((kind, image_count));
                proof {
                    let keys = counts@.map_values(|e: (DescriptorKind, usize)| e.0);
                    assert(keys =~= old_keys.push(kind));
                    old_keys.lemma_push_to_set_commute(kind);
                    assert forall|t: int| 0 <= t < counts@.len() implies (#[trigger] counts@[t]).1
                        == kind_count(post, counts@[t].0) * image_count by {
                        let k = counts@[t].0;
                        lemma_kind_count_push(kinds@, i as int, k);
                        if t < before.len() {
                            assert(counts@[t] == before[t]);
                            assert(old_keys[t] == k);
                            assert(k != kind) by {
                                if k == kind {
                                    assert(old_keys.contains(kind));
                                }
                            }
                        } else {
                            assert(counts@[t] == (kind, image_count));
                            assert(kind_count(pre, kind) == 0);
                            assert(kind_count(post, kind) == 1);
                        }
                    }
                }
            },
        }
        i = i + 1;
    }
    proof {
        assert(kinds@.take(kinds@.len() as int) =~= kinds@);
    }
    // one pool size per kind
    let mut sizes: Vec<(DescriptorKind, u32)> = Vec::new();
    let mut t: usize = 0;
    while t < counts.len()
        invariant
            0 <= t <= counts@.len(),
            sizes@.len() == t,
            forall|u: int| 0 <= u < t ==> (#[trigger] sizes@[u]).0 == counts@[u].0 && sizes@[u].1 == counts@[u].1 as u32,
        decreases counts@.len() - t,
    {
        let (kind, count) = counts[t];
        sizes.push((kind, count as u32));
        t = t + 1;
    }
    proof {
        assert(sizes@.map_values(|e: (DescriptorKind, u32)| e.0) =~= counts@.map_values(|e: (DescriptorKind, usize)| e.0));
    }
    (sizes, descriptor_set_count as u32)
}

} // verus!
