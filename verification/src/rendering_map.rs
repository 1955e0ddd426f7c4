//! The rendering map: for each mesh, how many scene objects draw it and where
//! their instances start in the per-object uniform buffers.
use vstd::prelude::*;
use std::collections::BTreeMap;
use crate::key_order::{ascending_keys, sorted_keys, strictly_ascending};
use self::counting::{
    instances_below, key_space, lemma_instances_below_gap, lemma_instances_below_mono,
    lemma_instances_below_step, lemma_instances_below_same_counts, lemma_instances_match_elements,
    lemma_elements_below_all, lemma_occurrences_push, lemma_occurrences_contains,
    occurrences, total_instances,
};

pub mod counting;
pub mod hasher;

verus! {

broadcast use vstd::std_specs::btree::group_btree_axioms;

/// A rendering map builds the rendering commands from the scene.
pub struct RenderingMap {
    /// key : mesh id
    /// value : number of instances, total offset, temp counter
    pub map: BTreeMap<u64, (usize, usize, usize)>,
}

impl View for RenderingMap {
    type V = Map<u64, (usize, usize, usize)>;

    open spec fn view(&self) -> Map<u64, (usize, usize, usize)> {
        self.map@
    }
}

/// `m` is the map built from the objects whose mesh ids are `ids`, listed in
/// scene order: one entry per mesh, holding its number of objects, the number
/// of objects of meshes with a smaller id (its first buffer slot), and the
/// number of objects already given a slot (all of them).
pub open spec fn is_rebuilt_from(m: Map<u64, (usize, usize, usize)>, ids: Seq<u64>) -> bool {
    &&& m.dom() == ids.to_set()
    &&& forall|k: u64| #[trigger]
        m.contains_key(k) ==> {
            &&& m[k].0 == occurrences(ids, k)
            &&& m[k].1 == instances_below(m, k as nat)
            &&& m[k].2 == occurrences(ids, k)
        }
}

/// The buffer slot of the `i`-th object: its mesh's first slot, plus the
/// number of earlier objects of the same mesh.
pub open spec fn buffer_slot(m: Map<u64, (usize, usize, usize)>, ids: Seq<u64>, i: int) -> int {
    m[ids[i]].1 + occurrences(ids.take(i), ids[i])
}

/// The bound below which lie exactly the first `j` keys of an ascending listing.
pub open spec fn bound_after(keys: Seq<u64>, j: int) -> nat {
    if j == 0 {
        0
    } else {
        keys[j - 1] as nat + 1
    }
}

/// Between two consecutive keys of an ascending listing of the domain, `m`
/// holds no other key.
pub proof fn lemma_next_key_gap(m: Map<u64, (usize, usize, usize)>, keys: Seq<u64>, j: int)
    requires
        strictly_ascending(keys),
        keys.to_set() == m.dom(),
        0 <= j < keys.len(),
    ensures
        instances_below(m, keys[j] as nat) == instances_below(m, bound_after(keys, j)),
        bound_after(keys, j) <= keys[j],
{
    if j > 0 {
        assert(keys[j - 1] < keys[j]);
    }
    assert forall|x: u64| bound_after(keys, j) <= x < keys[j] implies !m.contains_key(x) by {
        if m.contains_key(x) {
            assert(keys.to_set().contains(x));
            let t = choose|t: int| 0 <= t < keys.len() && keys[t] == x;
            if t < j {
                if t < j - 1 {
                    assert(keys[t] < keys[j - 1]);
                }
            } else if t > j {
                assert(keys[j] < keys[t]);
            }
        }
    }
    lemma_instances_below_gap(m, bound_after(keys, j), keys[j] as nat);
}

/// After the last key of an ascending listing of the domain, `m` holds no key.
pub proof fn lemma_last_key_gap(m: Map<u64, (usize, usize, usize)>, keys: Seq<u64>)
    requires
        strictly_ascending(keys),
        keys.to_set() == m.dom(),
    ensures
        total_instances(m) == instances_below(m, bound_after(keys, keys.len() as int)),
{
    assert forall|x: u64| bound_after(keys, keys.len() as int) <= x < key_space() implies !m.contains_key(x) by {
        if m.contains_key(x) {
            assert(keys.to_set().contains(x));
            let t = choose|t: int| 0 <= t < keys.len() && keys[t] == x;
            if t < keys.len() - 1 {
                assert(keys[t] < keys[keys.len() - 1]);
            }
        }
    }
    lemma_instances_below_gap(m, bound_after(keys, keys.len() as int), key_space());
}

/// After a rebuild, the map counts every object once: its object count is
/// the number of objects it was rebuilt from.
pub proof fn lemma_rebuilt_total(m: Map<u64, (usize, usize, usize)>, ids: Seq<u64>)
    requires
        is_rebuilt_from(m, ids),
    ensures
        total_instances(m) == ids.len(),
{
    lemma_instances_match_elements(m, ids, key_space());
    lemma_elements_below_all(ids);
}

/// After a rebuild, the slots of a mesh come after the slots of every mesh
/// with a smaller id: the slot ranges of two meshes never overlap.
pub proof fn lemma_mesh_ranges_ordered(m: Map<u64, (usize, usize, usize)>, ids: Seq<u64>, a: u64, b: u64)
    requires
        is_rebuilt_from(m, ids),
        m.contains_key(a),
        m.contains_key(b),
        a < b,
    ensures
        m[a].1 + m[a].0 <= m[b].1,
{
    lemma_instances_below_step(m, a);
    lemma_instances_below_mono(m, a as nat + 1, b as nat);
}

/// After a rebuild, every object's slot lies in its mesh's range, which is
/// `[first slot, first slot + number of objects of the mesh)`.
pub proof fn lemma_slot_in_mesh_range(m: Map<u64, (usize, usize, usize)>, ids: Seq<u64>, i: int)
    requires
        is_rebuilt_from(m, ids),
        0 <= i < ids.len(),
    ensures
        m.contains_key(ids[i]),
        m[ids[i]].1 <= buffer_slot(m, ids, i) < m[ids[i]].1 + m[ids[i]].0,
{
    assert(ids.to_set().contains(ids[i]));
    lemma_occurrences_push(ids, i, ids[i]);
    crate::rendering_map::counting::lemma_occurrences_prefix_mono(ids, i + 1, ids.len() as int, ids[i]);
    assert(ids.take(ids.len() as int) =~= ids);
}

/// After a rebuild, the slots of the objects are all different and all below
/// the number of objects: the objects fill the per-object buffers exactly.
pub proof fn lemma_slots_distinct_in_bounds(m: Map<u64, (usize, usize, usize)>, ids: Seq<u64>)
    requires
        is_rebuilt_from(m, ids),
    ensures
        forall|i: int| 0 <= i < ids.len() ==> 0 <= #[trigger] buffer_slot(m, ids, i) < ids.len(),
        forall|i: int, j: int|
            0 <= i < ids.len() && 0 <= j < ids.len() && i != j ==> buffer_slot(m, ids, i)
                != buffer_slot(m, ids, j),
{
    lemma_rebuilt_total(m, ids);
    assert forall|i: int| 0 <= i < ids.len() implies 0 <= #[trigger] buffer_slot(m, ids, i) < ids.len() by {
        lemma_slot_in_mesh_range(m, ids, i);
        lemma_instances_below_step(m, ids[i]);
        lemma_instances_below_mono(m, ids[i] as nat + 1, key_space());
    }
    assert forall|i: int, j: int|
        0 <= i < ids.len() && 0 <= j < ids.len() && i != j implies buffer_slot(m, ids, i)
            != buffer_slot(m, ids, j) by {
        lemma_slot_in_mesh_range(m, ids, i);
        lemma_slot_in_mesh_range(m, ids, j);
        if ids[i] == ids[j] {
            let (lo, hi) = if i < j { (i, j) } else { (j, i) };
            lemma_occurrences_push(ids, lo, ids[lo]);
            crate::rendering_map::counting::lemma_occurrences_prefix_mono(ids, lo + 1, hi, ids[lo]);
        } else if ids[i] < ids[j] {
            lemma_mesh_ranges_ordered(m, ids, ids[i], ids[j]);
        } else {
            lemma_mesh_ranges_ordered(m, ids, ids[j], ids[i]);
        }
    }
}

impl RenderingMap {
    pub fn new() -> (r: RenderingMap)
        ensures
            r@ == Map::<u64, (usize, usize, usize)>::empty(),
    {
        RenderingMap { map: BTreeMap::new() }
    }

    /// Mutable access to the underlying map.
    pub fn map_mut(&mut self) -> (r: &mut BTreeMap<u64, (usize, usize, usize)>)
        ensures
            *r == old(self).map,
            final(self).map == *final(r),
    {
        &mut self.map
    }

    /// Get the number of objects in the scene rendered by this pipeline.
    pub fn object_count(&self) -> (count: usize)
        requires
            total_instances(self@) <= usize::MAX,
        ensures
            count == total_instances(self@),
    {
        let keys = sorted_keys(&self.map);
        let ghost m = self@;
        let mut count: usize = 0;
        let mut j: usize = 0;
        while j < keys.len()
            invariant
                m == self@,
                total_instances(m) <= usize::MAX,
                strictly_ascending(keys@),
                keys@.to_set() == m.dom(),
                0 <= j <= keys@.len(),
                count == instances_below(m, bound_after(keys@, j as int)),
            decreases keys@.len() - j,
        {
            let k = keys[j];
            proof {
                assert(keys@.to_set().contains(k));
                lemma_next_key_gap(m, keys@, j as int);
                lemma_instances_below_step(m, k);
                lemma_instances_below_mono(m, k as nat + 1, key_space());
            }
            let c = match self.map.get(&k) {
                Some(entry) => entry.0,
                None => 0,
            };
            count = count + c;
            j = j + 1;
        }
        proof {
            lemma_last_key_gap(m, keys@);
        }
        count
    }

    /// Rebuild the map from the mesh ids of the scene's renderable objects,
    /// given in scene order, and give every object its slot in the
    /// per-object uniform buffers: objects of the same mesh get consecutive
    /// slots, meshes are laid out by increasing id.
    /// The slots are returned in the order of the objects.
    pub fn rebuild(&mut self, mesh_ids: &[u64]) -> (slots: Vec<usize>)
        ensures
            is_rebuilt_from(final(self)@, mesh_ids@),
            slots@.len() == mesh_ids@.len(),
            forall|i: int|
                0 <= i < mesh_ids@.len() ==> #[trigger] slots@[i] == buffer_slot(
                    final(self)@,
                    mesh_ids@,
                    i,
                ),
    {
        let ghost ids = mesh_ids@;
        let n = mesh_ids.len();
        // clear the map
        self.map.clear();
        // count how many objects draw each mesh
        let mut i: usize = 0;
        while i < n
            invariant
                n == ids.len(),
                ids == mesh_ids@,
                0 <= i <= n,
                self@.dom() == ids.take(i as int).to_set(),
                forall|k: u64| #[trigger]
                    self@.contains_key(k) ==> self@[k] == (
                        occurrences(ids.take(i as int), k) as usize,
                        0usize,
                        0usize,
                    ),
                forall|k: u64| #[trigger]
                    self@.contains_key(k) ==> occurrences(ids.take(i as int), k) <= i,
            decreases n - i,
        {
            let k = mesh_ids[i];
            proof {
                assert forall|x: u64| #[trigger] occurrences(ids.take(i + 1), x) == occurrences(
                    ids.take(i as int),
                    x,
                ) + if ids[i as int] == x {
                    1nat
                } else {
                    0nat
                } by {
                    lemma_occurrences_push(ids, i as int, x);
                }
                lemma_occurrences_contains(ids.take(i as int), k);
                assert(ids.take(i as int).to_set().contains(k) <==> ids.take(i as int).contains(k));
            }
            match self.map.get(&k) {
                Some(entry) => {
                    let instance_count = entry.0;
                    self.map.insert(k, (instance_count + 1, 0, 0));
                },
                None => {
                    self.map.insert(k, (1, 0, 0));
                },
            }
            proof {
                crate::key_order::lemma_prefix_set_push(ids, i as int);
                assert(self@.dom() =~= ids.take(i + 1).to_set());
            }
            i = i + 1;
        }
        proof {
            assert(ids.take(n as int) =~= ids);
        }
        let ghost counted = self@;
        proof {
            lemma_instances_match_elements(counted, ids, key_space());
            lemma_elements_below_all(ids);
            assert(total_instances(counted) == n);
        }
        // add offsets to the map
        let keys = sorted_keys(&self.map);
        let mut offset: usize = 0;
        let mut j: usize = 0;
        while j < keys.len()
            invariant
                n == ids.len(),
                total_instances(counted) == n,
                strictly_ascending(keys@),
                keys@.to_set() == counted.dom(),
                0 <= j <= keys@.len(),
                self@.dom() == counted.dom(),
                forall|k: u64| #[trigger]
                    self@.contains_key(k) ==> self@[k].0 == counted[k].0 && self@[k].2 == 0,
                forall|t: int|
                    0 <= t < j ==> #[trigger] self@[keys@[t]].1 == instances_below(
                        counted,
                        keys@[t] as nat,
                    ),
                offset == instances_below(counted, bound_after(keys@, j as int)),
            decreases keys@.len() - j,
        {
            let k = keys[j];
            proof {
                assert(keys@.to_set().contains(k));
                lemma_next_key_gap(counted, keys@, j as int);
                lemma_instances_below_step(counted, k);
                lemma_instances_below_mono(counted, k as nat + 1, key_space());
            }
            let instance_count = match self.map.get(&k) {
                Some(entry) => entry.0,
                None => 0,
            };
            self.map.insert(k, (instance_count, offset, 0));
            offset = offset + instance_count;
            proof {
                assert forall|t: int|
                    0 <= t < j + 1 implies #[trigger] self@[keys@[t]].1 == instances_below(
                    counted,
                    keys@[t] as nat,
                ) by {
                    if t < j {
                        assert(keys@[t] < keys@[j as int]);
                    }
                }
            }
            j = j + 1;
        }
        let ghost placed = self@;
        proof {
            lemma_instances_below_same_counts(placed, counted, key_space());
            assert forall|k: u64| #[trigger] placed.contains_key(k) implies placed[k].1
                == instances_below(placed, k as nat) by {
                assert(keys@.to_set().contains(k));
                let t = choose|t: int| 0 <= t < keys@.len() && keys@[t] == k;
                assert(placed[keys@[t]].1 == instances_below(counted, keys@[t] as nat));
                lemma_instances_below_same_counts(placed, counted, k as nat);
            }
        }
        // give every object its buffer slot
        let mut slots: Vec<usize> = Vec::new();
        let mut i: usize = 0;
        while i < n
            invariant
                n == ids.len(),
                ids == mesh_ids@,
                0 <= i <= n,
                total_instances(placed) == n,
                placed.dom() == ids.to_set(),
                self@.dom() == placed.dom(),
                forall|k: u64| #[trigger]
                    placed.contains_key(k) ==> placed[k].0 == occurrences(ids, k)
                        && placed[k].1 == instances_below(placed, k as nat),
                forall|k: u64| #[trigger]
                    self@.contains_key(k) ==> self@[k] == (
                        placed[k].0,
                        placed[k].1,
                        occurrences(ids.take(i as int), k) as usize,
                    ),
                slots@.len() == i,
                forall|t: int| 0 <= t < i ==> #[trigger] slots@[t] == buffer_slot(placed, ids, t),
            decreases n - i,
        {
            let k = mesh_ids[i];
            proof {
                assert(ids.to_set().contains(ids[i as int]));
                assert forall|x: u64| #[trigger] occurrences(ids.take(i + 1), x) == occurrences(
                    ids.take(i as int),
                    x,
                ) + if ids[i as int] == x {
                    1nat
                } else {
                    0nat
                } by {
                    lemma_occurrences_push(ids, i as int, x);
                }
                crate::rendering_map::counting::lemma_occurrences_prefix_mono(ids, i + 1, n as int, k);
                assert(ids.take(n as int) =~= ids);
                lemma_instances_below_step(placed, k);
                lemma_instances_below_mono(placed, k as nat + 1, key_space());
            }
            let (instance_count, mesh_offset, counter) = match self.map.get(&k) {
                Some(entry) => *entry,
                None => (0, 0, 0),
            };
            slots.push(mesh_offset + counter);
            self.map.insert(k, (instance_count, mesh_offset, counter + 1));
            i = i + 1;
        }
        proof {
            assert(ids.take(n as int) =~= ids);
            let fin = self@;
            assert forall|k: u64| #[trigger] fin.contains_key(k) implies {
                &&& fin[k].0 == occurrences(ids, k)
                &&& fin[k].1 == instances_below(fin, k as nat)
                &&& fin[k].2 == occurrences(ids, k)
            } by {
                lemma_instances_below_same_counts(fin, placed, k as nat);
            }
            assert(is_rebuilt_from(fin, ids));
            assert forall|t: int| 0 <= t < n implies #[trigger] slots@[t] == buffer_slot(fin, ids, t) by {
                assert(ids.to_set().contains(ids[t]));
            }
        }
        slots
    }
}

} // verus!
