//! The library of meshes: meshes waiting to be uploaded, and meshes that
//! live on the GPU, both keyed by mesh id.
use vstd::prelude::*;
use vstd::std_specs::iter::IteratorSpec;
use std::collections::HashMap;

verus! {

broadcast use vstd::std_specs::hash::group_hash_axioms;

/// Instance of a mesh on the gpu.
/// `B` is the GPU buffer holding the vertices followed by the indices.
pub struct LoadedMesh<B> {
    /// The buffer containing the data
    buffer: B,
    /// number of indices
    index_count: usize,
    /// number of vertices
    vertex_count: usize,
    /// type of int used for this mesh (the raw value of the Vulkan index type)
    index_type: i32,
}

impl<B> LoadedMesh<B> {
    /// A mesh whose data has been uploaded to `buffer`.
    pub fn new(buffer: B, index_count: usize, vertex_count: usize, index_type: i32) -> (r: Self)
        ensures
            r.buffer_spec() == buffer,
            r.index_count_spec() == index_count,
            r.vertex_count_spec() == vertex_count,
            r.index_type_spec() == index_type,
    {
        LoadedMesh { buffer, index_count, vertex_count, index_type }
    }

    pub closed spec fn buffer_spec(&self) -> B {
        self.buffer
    }

    pub closed spec fn index_count_spec(&self) -> usize {
        self.index_count
    }

    pub closed spec fn vertex_count_spec(&self) -> usize {
        self.vertex_count
    }

    pub closed spec fn index_type_spec(&self) -> i32 {
        self.index_type
    }

    pub fn index_count(&self) -> (r: usize)
        ensures
            r == self.index_count_spec(),
    {
        self.index_count
    }

    pub fn vertex_count(&self) -> (r: usize)
        ensures
            r == self.vertex_count_spec(),
    {
        self.vertex_count
    }

    pub fn index_type(&self) -> (r: i32)
        ensures
            r == self.index_type_spec(),
    {
        self.index_type
    }

    pub fn buffer(&self) -> (r: &B)
        ensures
            *r == self.buffer_spec(),
    {
        &self.buffer
    }

    /// Byte offset of the indices in the buffer: they follow the vertices,
    /// each of which takes `vertex_size` bytes.
    pub fn index_buffer_offset(&self, vertex_size: u64) -> (r: u64)
        requires
            self.vertex_count_spec() * vertex_size <= u64::MAX,
        ensures
            r == self.vertex_count_spec() * vertex_size,
    {
        self.vertex_count as u64 * vertex_size
    }

    /// Give the buffer back, to free it.
    pub fn into_buffer(self) -> (r: B)
        ensures
            r == self.buffer_spec(),
    {
        self.buffer
    }
}

/// A library of meshes that can be loaded and used in the scene.
/// `M` is a mesh waiting to be uploaded, `B` the GPU buffer of a loaded mesh.
pub struct MeshLibrary<M, B> {
    loading_queue: HashMap<u64, M>,
    meshes: HashMap<u64, LoadedMesh<B>>,
}

impl<M, B> MeshLibrary<M, B> {
    /// The meshes registered and waiting to be uploaded, by id.
    pub closed spec fn queued(&self) -> Map<u64, M> {
        self.loading_queue@
    }

    /// The meshes living on the GPU, by id.
    pub closed spec fn loaded(&self) -> Map<u64, LoadedMesh<B>> {
        self.meshes@
    }

    pub fn new() -> (r: Self)
        ensures
            r.queued() == Map::<u64, M>::empty(),
            r.loaded() == Map::<u64, LoadedMesh<B>>::empty(),
    {
        MeshLibrary { loading_queue: HashMap::new(), meshes: HashMap::new() }
    }

    /// Queue a mesh for loading; a mesh queued earlier under the same id is replaced.
    pub fn register_mesh(&mut self, mesh_id: u64, mesh: M)
        ensures
            final(self).queued() == old(self).queued().insert(mesh_id, mesh),
            final(self).loaded() == old(self).loaded(),
    {
        self.loading_queue.insert(mesh_id, mesh);
    }

    /// Empty the loading queue, handing out each queued mesh once with its id,
    /// so that it can be uploaded and given back with `insert_loaded`.
    pub fn take_loading_queue(&mut self) -> (queued: Vec<(u64, M)>)
        ensures
            final(self).queued() == Map::<u64, M>::empty(),
            final(self).loaded() == old(self).loaded(),
            queued@.len() == old(self).queued().len(),
            queued@.map_values(|e: (u64, M)| e.0).to_set() == old(self).queued().dom(),
            queued@.map_values(|e: (u64, M)| e.0).no_duplicates(),
            forall|i: int|
                0 <= i < queued@.len() ==> old(self).queued()[#[trigger] queued@[i].0]
                    == queued@[i].1,
    {
        drain_map(&mut self.loading_queue)
    }

    /// Record a mesh that now lives on the GPU; one loaded earlier under the same id is replaced.
    pub fn insert_loaded(&mut self, mesh_id: u64, mesh: LoadedMesh<B>)
        ensures
            final(self).loaded() == old(self).loaded().insert(mesh_id, mesh),
            final(self).queued() == old(self).queued(),
    {
        self.meshes.insert(mesh_id, mesh);
    }

    /// The loaded mesh of the given id, if any.
    pub fn loaded_mesh(&self, mesh_id: &u64) -> (r: Option<&LoadedMesh<B>>)
        ensures
            match r {
                Some(mesh) => self.loaded().contains_key(*mesh_id) && self.loaded()[*mesh_id]
                    == *mesh,
                None => !self.loaded().contains_key(*mesh_id),
            },
    {
        self.meshes.get(mesh_id)
    }

    /// Empty the library of loaded meshes, handing each one out once with its
    /// id, so that its buffer can be freed.
    pub fn take_loaded(&mut self) -> (loaded: Vec<(u64, LoadedMesh<B>)>)
        ensures
            final(self).loaded() == Map::<u64, LoadedMesh<B>>::empty(),
            final(self).queued() == old(self).queued(),
            loaded@.len() == old(self).loaded().len(),
            loaded@.map_values(|e: (u64, LoadedMesh<B>)| e.0).to_set() == old(self).loaded().dom(),
            loaded@.map_values(|e: (u64, LoadedMesh<B>)| e.0).no_duplicates(),
            forall|i: int|
                0 <= i < loaded@.len() ==> old(self).loaded()[#[trigger] loaded@[i].0]
                    == loaded@[i].1,
    {
        drain_map(&mut self.meshes)
    }
}

/// A mesh given to `insert_loaded` is what `loaded_mesh` then finds under its id,
/// and the other ids keep their meshes.
pub proof fn lemma_insert_then_lookup<M, B>(
    before: MeshLibrary<M, B>,
    after: MeshLibrary<M, B>,
    id: u64,
    mesh: LoadedMesh<B>,
    other: u64,
)
    requires
        after.loaded() == before.loaded().insert(id, mesh),
    ensures
        after.loaded().contains_key(id) && after.loaded()[id] == mesh,
        other != id ==> (after.loaded().contains_key(other) == before.loaded().contains_key(other)
            && after.loaded()[other] == before.loaded()[other]),
{
}

/// Removes every entry of `m`, returning them with each key once.
pub(crate) fn drain_map<V>(m: &mut HashMap<u64, V>) -> (entries: Vec<(u64, V)>)
    ensures
        final(m)@ == Map::<u64, V>::empty(),
        entries@.len() == old(m)@.len(),
        entries@.map_values(|e: (u64, V)| e.0).to_set() == old(m)@.dom(),
        entries@.map_values(|e: (u64, V)| e.0).no_duplicates(),
        forall|i: int| 0 <= i < entries@.len() ==> old(m)@[#[trigger] entries@[i].0] == entries@[i].1,
{
    let ghost m0 = m@;
    let mut keys: Vec<u64> = Vec::new();
    for k in it: m.keys()
        invariant
            keys@.len() == it.index(),
            forall|i: int| 0 <= i < it.index() ==> keys@[i] == *it.seq()[i],
            it.seq() == vstd::std_specs::hash::spec_keys_iter(m).remaining(),
    {
        keys.push(*k);
    }
    proof {
        let ks = vstd::std_specs::hash::spec_keys_iter(m).remaining();
        assert(keys@ =~= ks.unref());
        vstd::std_specs::hash::axiom_spec_keys_iter(m);
        assert(keys@.len() == m0.dom().len());
        assert(keys@.no_duplicates()) by {
            assert forall|i: int, j: int| 0 <= i < j < keys@.len() implies keys@[i] != keys@[j] by {
                assert(ks[i] != ks[j]);
            }
        }
    }
    let mut entries: Vec<(u64, V)> = Vec::new();
    let mut i: usize = 0;
    while i < keys.len()
        invariant
            keys@.no_duplicates(),
            keys@.to_set() == m0.dom(),
            keys@.len() == m0.dom().len(),
            0 <= i <= keys@.len(),
            entries@.len() == i,
            forall|t: int| 0 <= t < i ==> (#[trigger] entries@[t]).0 == keys@[t],
            forall|t: int| 0 <= t < i ==> m0[(#[trigger] entries@[t]).0] == entries@[t].1,
            m@ == m0.remove_keys(keys@.take(i as int).to_set()),
        decreases keys@.len() - i,
    {
        let k = keys[i];
        proof {
            assert(keys@.to_set().contains(k));
            assert(!keys@.take(i as int).to_set().contains(k)) by {
                if keys@.take(i as int).to_set().contains(k) {
                    let t = choose|t: int| 0 <= t < i && keys@.take(i as int)[t] == k;
                    assert(keys@[t] == keys@[i as int]);
                }
            }
        }
        match m.remove(&k) {
            Some(v) => {
                entries.push((k, v));
            },
            None => {
                assert(false);
            },
        }
        proof {
            crate::key_order::lemma_prefix_set_push(keys@, i as int);
            assert(m@ =~= m0.remove_keys(keys@.take(i + 1).to_set()));
        }
        i = i + 1;
    }
    proof {
        assert(keys@.take(keys@.len() as int) =~= keys@);
        assert(m@ =~= Map::<u64, V>::empty());
        assert(entries@.map_values(|e: (u64, V)| e.0) =~= keys@);
    }
    entries
}

} // verus!
