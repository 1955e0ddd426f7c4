//! The per object uniforms of a rendering pipeline: every rendered entity
//! gets a position in the uniform buffers, given by the order in which the
//! scene lists them, and is drawn with dynamic offsets to its uniforms.
use vstd::prelude::*;
use std::collections::HashMap;
use crate::object_uniform::{PerObjectUniformObject, object_byte_offset, object_buffer_size};

verus! {

broadcast use vstd::std_specs::hash::group_hash_axioms;

/// Where each entity of `entities` is placed: at its last position in the list.
pub open spec fn placed_at_last(index: Map<u64, usize>, entities: Seq<u64>) -> bool {
    &&& index.dom() == entities.to_set()
    &&& forall|e: u64|
        #[trigger] index.contains_key(e) ==> {
            &&& index[e] < entities.len()
            &&& entities[index[e] as int] == e
            &&& forall|j: int| index[e] < j < entities.len() ==> entities[j] != e
        }
}

pub struct PerObjectUniforms<B, L, S> {
    /// The per object uniforms.
    uniforms: Vec<PerObjectUniformObject<B, L, S>>,
    /// For each entity, its position in the buffers.
    entity_to_index: HashMap<u64, usize>,
    /// Number of entities to render.
    entity_count: usize,
}

impl<B, L, S: Copy> PerObjectUniforms<B, L, S> {
    pub closed spec fn uniforms_spec(&self) -> Seq<PerObjectUniformObject<B, L, S>> {
        self.uniforms@
    }

    /// The position of each entity in the buffers.
    pub closed spec fn index_map(&self) -> Map<u64, usize> {
        self.entity_to_index@
    }

    pub closed spec fn entity_count_spec(&self) -> usize {
        self.entity_count
    }

    /// Per object uniforms with no entity placed yet.
    pub fn new(uniforms: Vec<PerObjectUniformObject<B, L, S>>) -> (r: Self)
        ensures
            r.uniforms_spec() == uniforms@,
            r.index_map() == Map::<u64, usize>::empty(),
            r.entity_count_spec() == 0,
    {
        PerObjectUniforms { uniforms, entity_to_index: HashMap::new(), entity_count: 0 }
    }

    /// The descriptor sets of every uniform for `image_index`, with the
    /// dynamic offset of the entity's uniform in each; `None` when the entity
    /// has no place yet, so the scene must be recreated.
    pub fn bind(&self, image_index: usize, swapchain_images_count: usize, entity: u64) -> (r: Option<
        (Vec<S>, Vec<u32>),
    >)
        requires
            self.index_map().contains_key(entity) ==> forall|k: int|
                0 <= k < self.uniforms_spec().len() ==> {
                    &&& image_index < (#[trigger] self.uniforms_spec()[k]).sets_spec().len()
                    &&& self.uniforms_spec()[k].object_size_spec() * self.index_map()[entity]
                        <= usize::MAX
                    &&& object_byte_offset(
                        self.uniforms_spec()[k].object_size_spec() as int,
                        self.index_map()[entity] as int,
                        image_index as int,
                        swapchain_images_count as int,
                    ) <= usize::MAX
                },
        ensures
            !self.index_map().contains_key(entity) ==> r is None,
            self.index_map().contains_key(entity) ==> (r matches Some((sets, offsets)) && {
                &&& sets@.len() == self.uniforms_spec().len()
                &&& offsets@.len() == self.uniforms_spec().len()
                &&& forall|k: int|
                    0 <= k < self.uniforms_spec().len() ==> #[trigger] sets@[k]
                        == self.uniforms_spec()[k].sets_spec()[image_index as int]
                &&& forall|k: int|
                    0 <= k < self.uniforms_spec().len() ==> #[trigger] offsets@[k] == object_byte_offset(
                        self.uniforms_spec()[k].object_size_spec() as int,
                        self.index_map()[entity] as int,
                        image_index as int,
                        swapchain_images_count as int,
                    ) as u32
            }),
    {
        // get the buffer offset for the entity
        let offset = match self.entity_to_index.get(&entity) {
            Some(offset) => *offset,
            None => return None,
        };
        let mut sets: Vec<S> = Vec::new();
        let mut offsets: Vec<u32> = Vec::new();
        let mut k: usize = 0;
        while k < self.uniforms.len()
            invariant
                0 <= k <= self.uniforms_spec().len(),
                self.index_map().contains_key(entity),
                offset == self.index_map()[entity],
                forall|u: int|
                    0 <= u < self.uniforms_spec().len() ==> {
                        &&& image_index < (#[trigger] self.uniforms_spec()[u]).sets_spec().len()
                        &&& self.uniforms_spec()[u].object_size_spec() * offset <= usize::MAX
                        &&& object_byte_offset(
                            self.uniforms_spec()[u].object_size_spec() as int,
                            offset as int,
                            image_index as int,
                            swapchain_images_count as int,
                        ) <= usize::MAX
                    },
                sets@.len() == k,
                offsets@.len() == k,
                forall|u: int|
                    0 <= u < k ==> #[trigger] sets@[u] == self.uniforms_spec()[u].sets_spec()[image_index as int],
                forall|u: int|
                    0 <= u < k ==> #[trigger] offsets@[u] == object_byte_offset(
                        self.uniforms_spec()[u].object_size_spec() as int,
                        offset as int,
                        image_index as int,
                        swapchain_images_count as int,
                    ) as u32,
            decreases self.uniforms_spec().len() - k,
        {
            let uniform = &self.uniforms[k];
            assert(image_index < self.uniforms_spec()[k as int].sets_spec().len());
            sets.push(uniform.set(image_index));
            offsets.push(uniform.byte_offset(offset, image_index, swapchain_images_count) as u32);
            k = k + 1;
        }
        Some((sets, offsets))
    }

    /// The position of the entity's uniforms in the buffers, to update them;
    /// `None` when the entity has no place yet, so the scene must be recreated.
    pub fn update(&self, entity: u64) -> (r: Option<usize>)
        ensures
            self.index_map().contains_key(entity) ==> r == Some(self.index_map()[entity]),
            !self.index_map().contains_key(entity) ==> r is None,
    {
        match self.entity_to_index.get(&entity) {
            Some(offset) => Some(*offset),
            None => None,
        }
    }

    /// Places the entities of the scene, in the order given, and returns for
    /// each uniform the size of the buffer to allocate in place of its own
    /// when it no longer holds every entity for every image (given back with
    /// `replace_buffer`).
    pub fn scene_recreation(&mut self, entities: &[u64], swapchain_images_count: usize) -> (r: Vec<
        Option<u64>,
    >)
        requires
            entities@.len() * swapchain_images_count <= usize::MAX,
            forall|k: int|
                0 <= k < old(self).uniforms_spec().len() ==> object_buffer_size(
                    (#[trigger] old(self).uniforms_spec()[k]).object_size_spec() as int,
                    entities@.len() as int,
                    swapchain_images_count as int,
                ) <= usize::MAX,
        ensures
            final(self).uniforms_spec() == old(self).uniforms_spec(),
            placed_at_last(final(self).index_map(), entities@),
            entities@.no_duplicates() ==> forall|k: int|
                0 <= k < entities@.len() ==> #[trigger] final(self).index_map()[entities@[k]] == k,
            final(self).entity_count_spec() == entities@.len(),
            r@.len() == old(self).uniforms_spec().len(),
            forall|k: int|
                0 <= k < r@.len() ==> {
                    let u = old(self).uniforms_spec()[k];
                    let needed = object_buffer_size(
                        u.object_size_spec() as int,
                        entities@.len() as int,
                        swapchain_images_count as int,
                    );
                    &&& u.buffer_size_spec() < needed ==> #[trigger] r@[k] == Some(needed as u64)
                    &&& u.buffer_size_spec() >= needed ==> r@[k] is None
                },
    {
        self.entity_count = 0;
        // create the entity to offset map
        self.entity_to_index.clear();
        proof {
            assert(entities@.take(0).to_set() =~= Set::<u64>::empty());
            assert(self.index_map().dom() =~= Set::<u64>::empty());
        }
        let mut i: usize = 0;
        while i < entities.len()
            invariant
                0 <= i <= entities@.len(),
                self.entity_count == i,
                self.uniforms_spec() == old(self).uniforms_spec(),
                placed_at_last(self.index_map(), entities@.take(i as int)),
            decreases entities@.len() - i,
        {
            let entity = entities[i];
            let ghost before = self.index_map();
            self.entity_to_index.insert(entity, i);
            self.entity_count = self.entity_count + 1;
            proof {
                let pre = entities@.take(i as int);
                let post = entities@.take(i + 1);
                crate::key_order::lemma_prefix_set_push(entities@, i as int);
                assert forall|e: u64| #[trigger] self.index_map().contains_key(e) implies {
                    &&& self.index_map()[e] < post.len()
                    &&& post[self.index_map()[e] as int] == e
                    &&& forall|j: int| self.index_map()[e] < j < post.len() ==> post[j] != e
                } by {
                    if e != entity {
                        assert(before.contains_key(e));
                        assert(pre[before[e] as int] == e);
                    }
                }
            }
            i = i + 1;
        }
        proof {
            assert(entities@.take(entities@.len() as int) =~= entities@);
        }
        // tell every uniform whether its buffer must grow.
        let mut plans: Vec<Option<u64>> = Vec::new();
        let mut k: usize = 0;
        while k < self.uniforms.len()
            invariant
                0 <= k <= self.uniforms_spec().len(),
                self.uniforms_spec() == old(self).uniforms_spec(),
                self.entity_count == entities@.len(),
                entities@.len() * swapchain_images_count <= usize::MAX,
                forall|u: int|
                    0 <= u < self.uniforms_spec().len() ==> object_buffer_size(
                        (#[trigger] self.uniforms_spec()[u]).object_size_spec() as int,
                        entities@.len() as int,
                        swapchain_images_count as int,
                    ) <= usize::MAX,
                plans@.len() == k,
                forall|u: int|
                    0 <= u < k ==> {
                        let uo = self.uniforms_spec()[u];
                        let needed = object_buffer_size(
                            uo.object_size_spec() as int,
                            entities@.len() as int,
                            swapchain_images_count as int,
                        );
                        &&& uo.buffer_size_spec() < needed ==> #[trigger] plans@[u] == Some(
                            needed as u64,
                        )
                        &&& uo.buffer_size_spec() >= needed ==> plans@[u] is None
                    },
            decreases self.uniforms_spec().len() - k,
        {
            let plan = self.uniforms[k].resize_buffer(swapchain_images_count, self.entity_count);
            plans.push(plan);
            k = k + 1;
        }
        proof {
            lemma_distinct_placed_at_own_position(self.index_map(), entities@);
        }
        plans
    }

    /// Puts a newly allocated buffer of `size` bytes in place of the buffer
    /// of the `k`-th uniform, which is given back to be freed.
    pub fn replace_buffer(&mut self, k: usize, buffer: B, size: u64) -> (r: B)
        requires
            k < old(self).uniforms_spec().len(),
        ensures
            r == old(self).uniforms_spec()[k as int].buffer_spec(),
            final(self).uniforms_spec().len() == old(self).uniforms_spec().len(),
            final(self).uniforms_spec()[k as int].buffer_spec() == buffer,
            final(self).uniforms_spec()[k as int].buffer_size_spec() == size,
            final(self).uniforms_spec()[k as int].object_size_spec() == old(self).uniforms_spec()[k as int].object_size_spec(),
            final(self).uniforms_spec()[k as int].layout_spec() == old(self).uniforms_spec()[k as int].layout_spec(),
            final(self).uniforms_spec()[k as int].sets_spec() == old(self).uniforms_spec()[k as int].sets_spec(),
            forall|u: int|
                0 <= u < old(self).uniforms_spec().len() && u != k ==> #[trigger] final(self).uniforms_spec()[u] == old(self).uniforms_spec()[u],
            final(self).index_map() == old(self).index_map(),
            final(self).entity_count_spec() == old(self).entity_count_spec(),
    {
        let mut uniform = self.uniforms.remove(k);
        let old_buffer = uniform.replace_buffer(buffer, size);
        self.uniforms.insert(k, uniform);
        old_buffer
    }

    /// The uniforms, to write their data and descriptor sets.
    pub fn uniforms(&self) -> (r: &Vec<PerObjectUniformObject<B, L, S>>)
        ensures
            r@ == self.uniforms_spec(),
    {
        &self.uniforms
    }

    pub fn entity_count(&self) -> (r: usize)
        ensures
            r == self.entity_count_spec(),
    {
        self.entity_count
    }
}

/// After a scene recreation, every entity of the scene has a place, and two
/// different entities never share one.
pub proof fn lemma_places_distinct(index: Map<u64, usize>, entities: Seq<u64>, a: u64, b: u64)
    requires
        placed_at_last(index, entities),
        entities.contains(a),
        a != b,
        index.contains_key(b),
    ensures
        index.contains_key(a),
        index[a] < entities.len(),
        index[a] != index[b],
{
    assert(entities.to_set().contains(a));
    assert(index.contains_key(a));
    assert(entities[index[a] as int] == a);
    assert(entities[index[b] as int] == b);
}

/// Entities listed once each are placed at their own position: the places
/// are the positions `0..entities.len()`, one entity each.
pub proof fn lemma_distinct_placed_at_own_position(index: Map<u64, usize>, entities: Seq<u64>)
    requires
        placed_at_last(index, entities),
    ensures
        entities.no_duplicates() ==> forall|k: int|
            0 <= k < entities.len() ==> #[trigger] index[entities[k]] == k,
{
    if entities.no_duplicates() {
        assert forall|k: int| 0 <= k < entities.len() implies #[trigger] index[entities[k]] == k by {
            let e = entities[k];
            assert(entities.to_set().contains(e));
            assert(index.contains_key(e));
            assert(entities[index[e] as int] == e);
        }
    }
}

} // verus!
