use propellant::rendering_map::RenderingMap;
use propellant::rendering_map::hasher::RenderingMapHasher;
use propellant::mesh_library::{LoadedMesh, MeshLibrary};
use propellant::draw::{DrawCall, InstanceRanges};
use std::hash::{BuildHasher, BuildHasherDefault, Hasher};

#[test]
fn new_map_is_empty() {
    let map = RenderingMap::new();
    assert!(map.map.is_empty());
    assert_eq!(map.object_count(), 0);
}

#[test]
fn object_count_sums_instances() {
    let mut map = RenderingMap::new();
    map.map_mut().insert(7, (3, 0, 3));
    map.map_mut().insert(2, (4, 0, 4));
    assert_eq!(map.object_count(), 7);
}

#[test]
fn rebuild_groups_objects_by_mesh() {
    let mut map = RenderingMap::new();
    // stale content is cleared by a rebuild
    map.map_mut().insert(99, (5, 5, 5));
    let slots = map.rebuild(&[10, 3, 10, 7, 3, 10]);
    // meshes by increasing id: 3 (2 objects), 7 (1 object), 10 (3 objects)
    assert_eq!(map.map.get(&3), Some(&(2, 0, 2)));
    assert_eq!(map.map.get(&7), Some(&(1, 2, 1)));
    assert_eq!(map.map.get(&10), Some(&(3, 3, 3)));
    assert_eq!(map.map.get(&99), None);
    assert_eq!(slots, vec![3, 0, 4, 2, 1, 5]);
    assert_eq!(map.object_count(), 6);
}

#[test]
fn rebuild_slots_are_a_permutation() {
    let ids = [5u64, 5, 1, 9, 1, 5, 9, 0];
    let mut map = RenderingMap::new();
    let mut slots = map.rebuild(&ids);
    slots.sort();
    assert_eq!(slots, (0..ids.len()).collect::<Vec<_>>());
}

#[test]
fn rebuild_of_no_object() {
    let mut map = RenderingMap::new();
    let slots = map.rebuild(&[]);
    assert!(slots.is_empty());
    assert!(map.map.is_empty());
}

#[test]
fn hasher_gives_back_the_id() {
    let mut h = RenderingMapHasher::default();
    h.write_u64(0xdead_beef_1234);
    assert_eq!(h.finish(), 0xdead_beef_1234);
    let mut h = RenderingMapHasher::default();
    h.write(&42u64.to_ne_bytes());
    assert_eq!(h.finish(), 42);
    // only the first eight bytes count
    let mut long = 7u64.to_ne_bytes().to_vec();
    long.extend_from_slice(&[1, 2, 3]);
    let mut h = RenderingMapHasher::default();
    h.write(&long);
    assert_eq!(h.finish(), 7);
    assert_eq!(RenderingMapHasher::default().finish(), 0);
}

#[test]
fn hasher_through_std_trait() {
    struct Wrapped(RenderingMapHasher);
    impl Hasher for Wrapped {
        fn finish(&self) -> u64 {
            self.0.finish()
        }
        fn write(&mut self, bytes: &[u8]) {
            self.0.write(bytes)
        }
        fn write_u64(&mut self, i: u64) {
            self.0.write_u64(i)
        }
    }
    impl Default for Wrapped {
        fn default() -> Self {
            Wrapped(RenderingMapHasher::default())
        }
    }
    let build = BuildHasherDefault::<Wrapped>::default();
    assert_eq!(build.hash_one(77u64), 77);
}

fn library() -> MeshLibrary<(), &'static str> {
    let mut meshes = MeshLibrary::new();
    meshes.insert_loaded(3, LoadedMesh::new("three", 36, 8, 0));
    meshes.insert_loaded(10, LoadedMesh::new("ten", 6, 4, 1));
    meshes
}

#[test]
fn iter_lists_loaded_meshes_by_id() {
    let mut map = RenderingMap::new();
    map.rebuild(&[10, 3, 10, 7, 3, 10]);
    let meshes = library();
    let listed: Vec<(&str, usize)> = map.iter(&meshes).into_iter().map(|(m, c)| (*m.buffer(), c)).collect();
    // mesh 7 is not loaded and is left out
    assert_eq!(listed, vec![("three", 2), ("ten", 3)]);
}

#[test]
fn draw_calls_follow_the_slots() {
    let mut map = RenderingMap::new();
    map.rebuild(&[10, 3, 10, 7, 3, 10]);
    let meshes = library();
    let calls: Vec<(&str, DrawCall)> = map.draw_calls(&meshes).into_iter().map(|(m, c)| (*m.buffer(), c)).collect();
    assert_eq!(
        calls,
        vec![
            ("three", DrawCall { index_count: 36, instance_count: 2, first_instance: 0 }),
            // the unloaded mesh 7 still takes its instance
            ("ten", DrawCall { index_count: 6, instance_count: 3, first_instance: 2 }),
        ]
    );
}

#[test]
fn instance_ranges_from_a_rebuilt_map() {
    let mut map = RenderingMap::new();
    map.rebuild(&[10, 3, 10, 7, 3, 10]);
    let mut ranges = InstanceRanges::empty();
    assert!(ranges.is_empty());
    assert_eq!(ranges.instance_count(), 0);
    ranges.resize(map.map.clone());
    assert!(!ranges.is_empty());
    assert_eq!(ranges.instance_count(), 6);
    let meshes = library();
    let calls: Vec<(&str, DrawCall)> = ranges.draw_calls(&meshes).into_iter().map(|(m, c)| (*m.buffer(), c)).collect();
    assert_eq!(
        calls,
        vec![
            ("three", DrawCall { index_count: 36, instance_count: 2, first_instance: 0 }),
            ("ten", DrawCall { index_count: 6, instance_count: 3, first_instance: 3 }),
        ]
    );
}

#[test]
fn rebuilt_slots_lie_in_their_mesh_range() {
    let ids = [4u64, 4, 8, 2, 8, 4, 2, 2, 2];
    let mut map = RenderingMap::new();
    let slots = map.rebuild(&ids);
    let mut total = 0;
    for (i, id) in ids.iter().enumerate() {
        let (count, first, _) = map.map[id];
        assert!(first <= slots[i] && slots[i] < first + count);
    }
    // mesh ranges follow each other by increasing id
    for (_, (count, first, _)) in map.map.iter() {
        assert_eq!(*first, total);
        total += count;
    }
    assert_eq!(total, ids.len());
    assert_eq!(map.object_count(), ids.len());
}
