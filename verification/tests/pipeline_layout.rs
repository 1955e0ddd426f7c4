use propellant::set_order::{first_set, in_set_order, UniformGroup};
use propellant::frame_uniform::{frame_buffer_size, frame_window};
use propellant::texture_uniform::TextureUniform;

#[test]
fn sets_follow_resource_frame_object() {
    let layouts = in_set_order(&["tex"], &["camera", "light"], &["model"]);
    assert_eq!(layouts, vec!["tex", "camera", "light", "model"]);
    let sets = in_set_order(&[10], &[20, 21], &[30]);
    assert_eq!(first_set(UniformGroup::Resource, 1, 2), 0);
    assert_eq!(first_set(UniformGroup::Frame, 1, 2), 1);
    assert_eq!(first_set(UniformGroup::Object, 1, 2), 3);
    // each uniform's set is bound at its layout's index
    assert_eq!((layouts[2], sets[2]), ("light", 21));
    assert_eq!((layouts[3], sets[3]), ("model", 30));
    assert!(in_set_order::<u8>(&[], &[], &[]).is_empty());
}

#[test]
fn frame_copies_one_per_image() {
    assert_eq!(frame_buffer_size(64, 3), 192);
    assert_eq!(frame_window(64, 0), 0);
    assert_eq!(frame_window(64, 2), 128);
}

#[test]
fn grown_texture_set_holds_every_written_slot() {
    let mut uniform: TextureUniform<(), u32> = TextureUniform::new((), 0);
    // slot 16 with 16 descriptors: the set grows to 32 before writing
    let max_index = 16;
    if let Some(size) = uniform.grow_for(max_index) {
        uniform.replace_set(size);
    }
    let written = uniform.newly_loaded(&[0, 5, 16, 5]);
    assert_eq!(written, vec![0, 5, 16]);
    assert!(written.iter().all(|slot| *slot < uniform.descriptor_size()));
    assert_eq!(uniform.descriptor_size(), 32);
}
