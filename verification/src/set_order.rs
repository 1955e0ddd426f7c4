//! The order of a graphics pipeline's descriptor sets: resource uniforms
//! first, then frame uniforms, then object uniforms. The pipeline layout is
//! built from the uniforms' layouts in that order, and the sets are bound in
//! that same order, so that each uniform's set lands on its layout's index.
use vstd::prelude::*;

verus! {

/// The groups of uniforms of a graphics pipeline.
#[derive(Clone, Copy, Debug, PartialEq, Eq, Structural)]
pub enum UniformGroup {
    Resource,
    Frame,
    Object,
}

/// Index of the first set of a group, given how many resource and frame
/// uniforms come before.
pub open spec fn group_start(group: UniformGroup, resource_count: int, frame_count: int) -> int {
    match group {
        UniformGroup::Resource => 0,
        UniformGroup::Frame => resource_count,
        UniformGroup::Object => resource_count + frame_count,
    }
}

/// Index of the first set of the group.
pub fn first_set(group: UniformGroup, resource_count: usize, frame_count: usize) -> (r: usize)
    requires
        resource_count + frame_count <= usize::MAX,
    ensures
        r == group_start(group, resource_count as int, frame_count as int),
{
    match group {
        UniformGroup::Resource => 0,
        UniformGroup::Frame => resource_count,
        UniformGroup::Object => resource_count + frame_count,
    }
}

/// The layouts, or the sets, of the three groups in pipeline order.
pub fn in_set_order<T: Copy>(resource: &[T], frame: &[T], object: &[T]) -> (r: Vec<T>)
    ensures
        r@ == resource@ + frame@ + object@,
{
    let mut out: Vec<T> = Vec::new();
    let mut i: usize = 0;
    while i < resource.len()
        invariant
            0 <= i <= resource@.len(),
            out@ == resource@.take(i as int),
        decreases resource@.len() - i,
    {
        out.push(resource[i]);
        i = i + 1;
        assert(out@ =~= resource@.take(i as int));
    }
    assert(resource@.take(resource@.len() as int) =~= resource@);
    let mut i: usize = 0;
    while i < frame.len()
        invariant
            0 <= i <= frame@.len(),
            out@ == resource@ + frame@.take(i as int),
        decreases frame@.len() - i,
    {
        out.push(frame[i]);
        i = i + 1;
        assert(out@ =~= resource@ + frame@.take(i as int));
    }
    assert(frame@.take(frame@.len() as int) =~= frame@);
    let mut i: usize = 0;
    while i < object.len()
        invariant
            0 <= i <= object@.len(),
            out@ == resource@ + frame@ + object@.take(i as int),
        decreases object@.len() - i,
    {
        out.push(object[i]);
        i = i + 1;
        assert(out@ =~= resource@ + frame@ + object@.take(i as int));
    }
    assert(object@.take(object@.len() as int) =~= object@);
    out
}

/// The `k`-th uniform of a group: its layout in the layout list and its set
/// in the bound list both stand at the group's first index plus `k`.
pub proof fn lemma_set_on_its_layout<A, B>(
    layouts: (Seq<A>, Seq<A>, Seq<A>),
    sets: (Seq<B>, Seq<B>, Seq<B>),
    group: UniformGroup,
    k: int,
)
    requires
        layouts.0.len() == sets.0.len(),
        layouts.1.len() == sets.1.len(),
        layouts.2.len() == sets.2.len(),
        0 <= k,
        group == UniformGroup::Resource ==> k < layouts.0.len(),
        group == UniformGroup::Frame ==> k < layouts.1.len(),
        group == UniformGroup::Object ==> k < layouts.2.len(),
    ensures
        ({
            let i = group_start(group, layouts.0.len() as int, layouts.1.len() as int) + k;
            let all_layouts = layouts.0 + layouts.1 + layouts.2;
            let all_sets = sets.0 + sets.1 + sets.2;
            &&& i < all_layouts.len()
            &&& all_layouts.len() == all_sets.len()
            &&& all_layouts[i] == match group {
                UniformGroup::Resource => layouts.0[k],
                UniformGroup::Frame => layouts.1[k],
                UniformGroup::Object => layouts.2[k],
            }
            &&& all_sets[i] == match group {
                UniformGroup::Resource => sets.0[k],
                UniformGroup::Frame => sets.1[k],
                UniformGroup::Object => sets.2[k],
            }
        }),
{
}

} // verus!
