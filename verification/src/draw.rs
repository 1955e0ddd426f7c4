//! Instanced draw calls: which meshes are drawn, with how many instances,
//! starting at which instance.
use vstd::prelude::*;
use std::collections::BTreeMap;
use crate::key_order::{ascending_keys, sorted_keys, strictly_ascending};
use crate::mesh_library::{LoadedMesh, MeshLibrary};
use crate::rendering_map::{bound_after, lemma_last_key_gap, lemma_next_key_gap, RenderingMap};
use crate::rendering_map::counting::{
    instances_below, lemma_instances_below_mono, lemma_instances_below_step, total_instances,
    key_space,
};

verus! {

broadcast use vstd::std_specs::btree::group_btree_axioms;

/// One instanced, indexed draw of a mesh.
#[derive(Clone, Copy, Debug, PartialEq, Eq, Structural)]
pub struct DrawCall {
    /// Number of indices of the mesh.
    pub index_count: u32,
    /// Number of instances drawn.
    pub instance_count: u32,
    /// Index of the first instance in the per-object buffers.
    pub first_instance: u32,
}

/// The keys of `keys` whose mesh is in `loaded`, in the same order.
pub open spec fn drawn_keys(keys: Seq<u64>, loaded: Set<u64>) -> Seq<u64>
    decreases keys.len(),
{
    if keys.len() == 0 {
        Seq::empty()
    } else {
        let rest = drawn_keys(keys.drop_last(), loaded);
        if loaded.contains(keys.last()) {
            rest.push(keys.last())
        } else {
            rest
        }
    }
}

/// Sum of the instance counts that `m` records for the meshes of `keys`.
pub open spec fn summed_counts(m: Map<u64, (usize, usize, usize)>, keys: Seq<u64>) -> nat
    decreases keys.len(),
{
    if keys.len() == 0 {
        0
    } else {
        summed_counts(m, keys.drop_last()) + m[keys.last()].0 as nat
    }
}

/// The meshes of a rendering map that are drawn, smallest id first: those
/// that the mesh library holds.
pub open spec fn drawn_meshes<M, B>(m: Map<u64, (usize, usize, usize)>, meshes: MeshLibrary<M, B>) -> Seq<u64> {
    drawn_keys(ascending_keys(m.dom()), meshes.loaded().dom())
}

proof fn lemma_drawn_keys_push(keys: Seq<u64>, loaded: Set<u64>, j: int)
    requires
        0 <= j < keys.len(),
    ensures
        drawn_keys(keys.take(j + 1), loaded) == if loaded.contains(keys[j]) {
            drawn_keys(keys.take(j), loaded).push(keys[j])
        } else {
            drawn_keys(keys.take(j), loaded)
        },
{
    assert(keys.take(j + 1).drop_last() =~= keys.take(j));
}

proof fn lemma_summed_counts_push(m: Map<u64, (usize, usize, usize)>, keys: Seq<u64>, k: u64)
    ensures
        summed_counts(m, keys.push(k)) == summed_counts(m, keys) + m[k].0 as nat,
{
    assert(keys.push(k).drop_last() =~= keys);
}

/// Sums over shorter prefixes are never larger.
proof fn lemma_summed_prefix_bounded(m: Map<u64, (usize, usize, usize)>, s: Seq<u64>, a: int)
    requires
        0 <= a <= s.len(),
    ensures
        summed_counts(m, s.take(a)) <= summed_counts(m, s),
    decreases s.len() - a,
{
    if a < s.len() {
        lemma_summed_prefix_bounded(m, s, a + 1);
        assert(s.take(a + 1).drop_last() =~= s.take(a));
    } else {
        assert(s.take(a) =~= s);
    }
}

/// The instances of the drawn meshes among the first `j` keys never exceed
/// the instances below the bound after those keys.
proof fn lemma_drawn_sum_bounded(
    m: Map<u64, (usize, usize, usize)>,
    keys: Seq<u64>,
    loaded: Set<u64>,
    j: int,
)
    requires
        strictly_ascending(keys),
        keys.to_set() == m.dom(),
        0 <= j <= keys.len(),
    ensures
        summed_counts(m, drawn_keys(keys.take(j), loaded)) <= instances_below(m, bound_after(keys, j)),
    decreases j,
{
    if j > 0 {
        lemma_drawn_sum_bounded(m, keys, loaded, j - 1);
        lemma_drawn_keys_push(keys, loaded, j - 1);
        lemma_summed_counts_push(m, drawn_keys(keys.take(j - 1), loaded), keys[j - 1]);
        lemma_next_key_gap(m, keys, j - 1);
        assert(keys.to_set().contains(keys[j - 1]));
        lemma_instances_below_step(m, keys[j - 1]);
    }
}

/// With every mesh loaded, no mesh is left out.
proof fn lemma_drawn_all_loaded(keys: Seq<u64>, loaded: Set<u64>)
    requires
        forall|i: int| 0 <= i < keys.len() ==> loaded.contains(#[trigger] keys[i]),
    ensures
        drawn_keys(keys, loaded) == keys,
    decreases keys.len(),
{
    if keys.len() > 0 {
        lemma_drawn_all_loaded(keys.drop_last(), loaded);
        assert(keys.drop_last().push(keys.last()) =~= keys);
    }
}

/// Summing the instance counts of the first `j` keys of an ascending listing
/// counts the instances below the bound after them.
proof fn lemma_prefix_sum_is_offset(m: Map<u64, (usize, usize, usize)>, keys: Seq<u64>, j: int)
    requires
        strictly_ascending(keys),
        keys.to_set() == m.dom(),
        0 <= j <= keys.len(),
    ensures
        summed_counts(m, keys.take(j)) == instances_below(m, bound_after(keys, j)),
    decreases j,
{
    if j > 0 {
        lemma_prefix_sum_is_offset(m, keys, j - 1);
        assert(keys.take(j).drop_last() =~= keys.take(j - 1));
        lemma_next_key_gap(m, keys, j - 1);
        assert(keys.to_set().contains(keys[j - 1]));
        lemma_instances_below_step(m, keys[j - 1]);
    }
}

/// When every mesh of a rebuilt map is loaded, every mesh is drawn, and the
/// draw call of a mesh starts at the mesh's first buffer slot: the instances
/// it draws are exactly the slots given to the mesh's objects.
pub proof fn lemma_draw_calls_follow_slots(
    m: Map<u64, (usize, usize, usize)>,
    ids: Seq<u64>,
    loaded: Set<u64>,
    i: int,
)
    requires
        crate::rendering_map::is_rebuilt_from(m, ids),
        m.dom().subset_of(loaded),
        0 <= i < ascending_keys(m.dom()).len(),
    ensures
        drawn_keys(ascending_keys(m.dom()), loaded) == ascending_keys(m.dom()),
        summed_counts(m, ascending_keys(m.dom()).take(i)) == m[ascending_keys(m.dom())[i]].1,
{
    let keys = ascending_keys(m.dom());
    crate::key_order::lemma_ascending_keys_exist(m.dom());
    assert forall|t: int| 0 <= t < keys.len() implies loaded.contains(#[trigger] keys[t]) by {
        assert(keys.to_set().contains(keys[t]));
    }
    lemma_drawn_all_loaded(keys, loaded);
    lemma_prefix_sum_is_offset(m, keys, i);
    lemma_next_key_gap(m, keys, i);
    assert(keys.to_set().contains(keys[i]));
}

impl RenderingMap {
    /// The meshes to draw with their number of instances, smallest mesh id
    /// first: the meshes of the map that the library holds; the others are
    /// left out.
    pub fn iter<'a, M, B>(&self, meshes: &'a MeshLibrary<M, B>) -> (r: Vec<(&'a LoadedMesh<B>, usize)>)
        ensures
            r@.len() == drawn_meshes(self@, *meshes).len(),
            forall|i: int|
                0 <= i < r@.len() ==> {
                    let k = #[trigger] drawn_meshes(self@, *meshes)[i];
                    &&& *r@[i].0 == meshes.loaded()[k]
                    &&& r@[i].1 == self@[k].0
                },
    {
        let keys = sorted_keys(&self.map);
        let ghost m = self@;
        let ghost loaded = meshes.loaded().dom();
        let mut out: Vec<(&'a LoadedMesh<B>, usize)> = Vec::new();
        let mut j: usize = 0;
        while j < keys.len()
            invariant
                m == self@,
                loaded == meshes.loaded().dom(),
                keys@ == ascending_keys(m.dom()),
                keys@.to_set() == m.dom(),
                0 <= j <= keys@.len(),
                out@.len() == drawn_keys(keys@.take(j as int), loaded).len(),
                forall|i: int|
                    0 <= i < out@.len() ==> {
                        let k = #[trigger] drawn_keys(keys@.take(j as int), loaded)[i];
                        &&& *out@[i].0 == meshes.loaded()[k]
                        &&& out@[i].1 == m[k].0
                    },
            decreases keys@.len() - j,
        {
            let k = keys[j];
            proof {
                lemma_drawn_keys_push(keys@, loaded, j as int);
                assert(keys@.to_set().contains(k));
            }
            let count = match self.map.get(&k) {
                Some(entry) => entry.0,
                None => 0,
            };
            match meshes.loaded_mesh(&k) {
                Some(mesh) => {
                    out.push((mesh, count));
                },
                None => {},
            }
            j = j + 1;
        }
        proof {
            assert(keys@.take(keys@.len() as int) =~= keys@);
        }
        out
    }

    /// The draw calls of the pipeline, smallest mesh id first: one per mesh
    /// of the map that the library holds, each drawing the mesh's instances
    /// right after those of the meshes drawn before it.
    pub fn draw_calls<'a, M, B>(&self, meshes: &'a MeshLibrary<M, B>) -> (r: Vec<(&'a LoadedMesh<B>, DrawCall)>)
        requires
            total_instances(self@) <= usize::MAX,
        ensures
            r@.len() == drawn_meshes(self@, *meshes).len(),
            forall|i: int|
                0 <= i < r@.len() ==> {
                    let k = #[trigger] drawn_meshes(self@, *meshes)[i];
                    let mesh = meshes.loaded()[k];
                    &&& *r@[i].0 == mesh
                    &&& r@[i].1 == DrawCall {
                        index_count: mesh.index_count_spec() as u32,
                        instance_count: self@[k].0 as u32,
                        first_instance: summed_counts(
                            self@,
                            drawn_meshes(self@, *meshes).take(i),
                        ) as u32,
                    }
                },
    {
        let drawn = self.iter(meshes);
        let ghost m = self@;
        let ghost ks = drawn_meshes(m, *meshes);
        proof {
            let keys = ascending_keys(m.dom());
            crate::key_order::lemma_ascending_keys_exist(m.dom());
            lemma_drawn_sum_bounded(m, keys, meshes.loaded().dom(), keys.len() as int);
            assert(keys.take(keys.len() as int) =~= keys);
            lemma_last_key_gap(m, keys);
        }
        let mut out: Vec<(&'a LoadedMesh<B>, DrawCall)> = Vec::new();
        let mut first_instance: usize = 0;
        let mut i: usize = 0;
        while i < drawn.len()
            invariant
                m == self@,
                ks == drawn_meshes(m, *meshes),
                summed_counts(m, ks) <= usize::MAX,
                drawn@.len() == ks.len(),
                forall|t: int|
                    0 <= t < drawn@.len() ==> {
                        let k = #[trigger] ks[t];
                        &&& *drawn@[t].0 == meshes.loaded()[k]
                        &&& drawn@[t].1 == m[k].0
                    },
                0 <= i <= drawn@.len(),
                first_instance == summed_counts(m, ks.take(i as int)),
                out@.len() == i,
                forall|t: int|
                    0 <= t < i ==> {
                        let k = #[trigger] ks[t];
                        let mesh = meshes.loaded()[k];
                        &&& *out@[t].0 == mesh
                        &&& out@[t].1 == DrawCall {
                                index_count: mesh.index_count_spec() as u32,
                            instance_count: m[k].0 as u32,
                            first_instance: summed_counts(m, ks.take(t)) as u32,
                        }
                    },
            decreases drawn@.len() - i,
        {
            let (mesh, instance_count) = drawn[i];
            proof {
                assert(ks.take(i + 1) =~= ks.take(i as int).push(ks[i as int]));
                lemma_summed_counts_push(m, ks.take(i as int), ks[i as int]);
                lemma_summed_prefix_bounded(m, ks, i + 1);
            }
            let call = DrawCall {
                index_count: mesh.index_count() as u32,
                instance_count: instance_count as u32,
                first_instance: first_instance as u32,
            };
            out.push((mesh, call));
            first_instance = first_instance + instance_count;
            i = i + 1;
        }
        out
    }
}

} // verus!

verus! {

/// The instance ranges of a graphics pipeline: for each mesh its first
/// instance and its number of instances, and the number of instances in all.
pub struct InstanceRanges {
    instance_count: usize,
    /// mesh id, (first instance, instance count)
    ranges: BTreeMap<u64, (u32, u32)>,
}

impl InstanceRanges {
    /// Number of instances over all meshes.
    pub closed spec fn instance_count_spec(&self) -> usize {
        self.instance_count
    }

    /// First instance and number of instances of each mesh.
    pub closed spec fn ranges_spec(&self) -> Map<u64, (u32, u32)> {
        self.ranges@
    }

    pub fn empty() -> (r: Self)
        ensures
            r.instance_count_spec() == 0,
            r.ranges_spec() == Map::<u64, (u32, u32)>::empty(),
    {
        InstanceRanges { instance_count: 0, ranges: BTreeMap::new() }
    }

    /// Take the ranges from a rebuilt rendering map: mesh id to
    /// (number of instances, first instance, counter).
    pub fn resize(&mut self, mesh_map: BTreeMap<u64, (usize, usize, usize)>)
        requires
            total_instances(mesh_map@) <= usize::MAX,
        ensures
            final(self).instance_count_spec() == total_instances(mesh_map@),
            final(self).ranges_spec().dom() == mesh_map@.dom(),
            forall|k: u64| #[trigger]
                mesh_map@.contains_key(k) ==> final(self).ranges_spec()[k] == (
                    mesh_map@[k].1 as u32,
                    mesh_map@[k].0 as u32,
                ),
    {
        // the total object count can be easily computed from the mesh map
        let mesh_map = RenderingMap { map: mesh_map };
        self.instance_count = mesh_map.object_count();
        let ghost m = mesh_map@;
        let keys = sorted_keys(&mesh_map.map);
        let mut ranges: BTreeMap<u64, (u32, u32)> = BTreeMap::new();
        let mut j: usize = 0;
        while j < keys.len()
            invariant
                m == mesh_map@,
                keys@.to_set() == m.dom(),
                0 <= j <= keys@.len(),
                ranges@.dom() == keys@.take(j as int).to_set(),
                forall|k: u64| #[trigger]
                    ranges@.contains_key(k) ==> m.contains_key(k) && ranges@[k] == (
                        m[k].1 as u32,
                        m[k].0 as u32,
                    ),
            decreases keys@.len() - j,
        {
            let k = keys[j];
            proof {
                assert(keys@.to_set().contains(k));
                crate::key_order::lemma_prefix_set_push(keys@, j as int);
            }
            match mesh_map.map.get(&k) {
                Some(v) => {
                    ranges.insert(k, (v.1 as u32, v.0 as u32));
                },
                None => {},
            }
            j = j + 1;
        }
        proof {
            assert(keys@.take(keys@.len() as int) =~= keys@);
        }
        self.ranges = ranges;
    }

    /// Whether no mesh has instances to draw.
    pub fn is_empty(&self) -> (r: bool)
        ensures
            r == (self.ranges_spec().dom() == Set::<u64>::empty()),
    {
        let r = self.ranges.is_empty();
        proof {
            if !r {
                assert(!self.ranges@.is_empty());
                let k = choose|k: u64| self.ranges@.contains_key(k);
                assert(!Set::<u64>::empty().contains(k));
            } else {
                assert(self.ranges@.dom() =~= Set::<u64>::empty());
            }
        }
        r
    }

    pub fn instance_count(&self) -> (r: usize)
        ensures
            r == self.instance_count_spec(),
    {
        self.instance_count
    }

    /// The draw calls, smallest mesh id first: one per mesh of the ranges that
    /// the library holds; the others are left out.
    pub fn draw_calls<'a, M, B>(&self, meshes: &'a MeshLibrary<M, B>) -> (r: Vec<(&'a LoadedMesh<B>, DrawCall)>)
        ensures
            r@.len() == drawn_keys(ascending_keys(self.ranges_spec().dom()), meshes.loaded().dom()).len(),
            forall|i: int|
                0 <= i < r@.len() ==> {
                    let k = #[trigger] drawn_keys(
                        ascending_keys(self.ranges_spec().dom()),
                        meshes.loaded().dom(),
                    )[i];
                    let mesh = meshes.loaded()[k];
                    &&& *r@[i].0 == mesh
                    &&& r@[i].1 == DrawCall {
                        index_count: mesh.index_count_spec() as u32,
                        instance_count: self.ranges_spec()[k].1,
                        first_instance: self.ranges_spec()[k].0,
                    }
                },
    {
        let keys = sorted_keys(&self.ranges);
        let ghost m = self.ranges@;
        let ghost loaded = meshes.loaded().dom();
        let mut out: Vec<(&'a LoadedMesh<B>, DrawCall)> = Vec::new();
        let mut j: usize = 0;
        while j < keys.len()
            invariant
                m == self.ranges@,
                loaded == meshes.loaded().dom(),
                keys@ == ascending_keys(m.dom()),
                keys@.to_set() == m.dom(),
                0 <= j <= keys@.len(),
                out@.len() == drawn_keys(keys@.take(j as int), loaded).len(),
                forall|i: int|
                    0 <= i < out@.len() ==> {
                        let k = #[trigger] drawn_keys(keys@.take(j as int), loaded)[i];
                        let mesh = meshes.loaded()[k];
                        &&& *out@[i].0 == mesh
                        &&& out@[i].1 == DrawCall {
                            index_count: mesh.index_count_spec() as u32,
                            instance_count: m[k].1,
                            first_instance: m[k].0,
                        }
                    },
            decreases keys@.len() - j,
        {
            let k = keys[j];
            proof {
                lemma_drawn_keys_push(keys@, loaded, j as int);
                assert(keys@.to_set().contains(k));
            }
            let (first_instance, instance_count) = match self.ranges.get(&k) {
                Some(range) => *range,
                None => (0, 0),
            };
            match meshes.loaded_mesh(&k) {
                Some(mesh) => {
                    out.push((mesh, DrawCall {
                        index_count: mesh.index_count() as u32,
                        instance_count,
                        first_instance,
                    }));
                },
                None => {},
            }
            j = j + 1;
        }
        proof {
            assert(keys@.take(keys@.len() as int) =~= keys@);
        }
        out
    }
}

} // verus!
