use propellant::mesh_library::{LoadedMesh, MeshLibrary};

#[test]
fn loaded_mesh_accessors() {
    let mesh = LoadedMesh::new(5u8, 12, 4, 1);
    assert_eq!(mesh.index_count(), 12);
    assert_eq!(mesh.vertex_count(), 4);
    assert_eq!(mesh.index_type(), 1);
    assert_eq!(*mesh.buffer(), 5);
    // indices are stored right after the vertices
    assert_eq!(mesh.index_buffer_offset(32), 128);
    assert_eq!(mesh.into_buffer(), 5);
}

#[test]
fn queue_then_load() {
    let mut lib: MeshLibrary<&str, u32> = MeshLibrary::new();
    lib.register_mesh(1, "cube");
    lib.register_mesh(2, "quad");
    lib.register_mesh(1, "sphere");
    let mut queued = lib.take_loading_queue();
    queued.sort();
    assert_eq!(queued, vec![(1, "sphere"), (2, "quad")]);
    assert!(lib.take_loading_queue().is_empty());
    assert!(lib.loaded_mesh(&1).is_none());
    lib.insert_loaded(1, LoadedMesh::new(100, 36, 8, 0));
    assert_eq!(*lib.loaded_mesh(&1).unwrap().buffer(), 100);
    assert!(lib.loaded_mesh(&2).is_none());
    lib.insert_loaded(1, LoadedMesh::new(200, 6, 4, 0));
    assert_eq!(*lib.loaded_mesh(&1).unwrap().buffer(), 200);
    let taken = lib.take_loaded();
    assert_eq!(taken.len(), 1);
    assert_eq!(taken[0].0, 1);
    assert!(lib.loaded_mesh(&1).is_none());
}
