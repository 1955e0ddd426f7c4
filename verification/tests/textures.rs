use propellant::texture_library::{TextureError, TextureImage, TextureLibrary};
use propellant::texture_uniform::{TextureUniform, START_DESCRIPTOR_SIZE};
use propellant::font_atlas::{FontAtlas, ATLAS_SIZE, CELL_SIZE};

const TWO_PIXEL_PNG: [u8; 71] = [
    137, 80, 78, 71, 13, 10, 26, 10, 0, 0, 0, 13, 73, 72, 68, 82, 0, 0, 0, 2, 0, 0, 0, 1, 8, 6, 0,
    0, 0, 244, 34, 127, 138, 0, 0, 0, 14, 73, 68, 65, 84, 120, 156, 99, 248, 207, 192, 0, 66, 13,
    0, 15, 122, 3, 126, 119, 233, 127, 151, 0, 0, 0, 0, 73, 69, 78, 68, 174, 66, 96, 130,
];

#[test]
fn new_library_queues_the_white_texture() {
    let mut lib: TextureLibrary<u8> = TextureLibrary::new(1234);
    assert_eq!(lib.max_index(), 0);
    let queued = lib.take_loading_queue();
    assert_eq!(queued.len(), 1);
    let (id, (image, slot)) = &queued[0];
    assert_eq!(*id, 1234);
    assert_eq!(*slot, 0);
    assert_eq!((image.width, image.height), (1, 1));
    assert_eq!(image.pixels, vec![255, 255, 255, 255]);
}

#[test]
fn register_decodes_png_bytes() {
    let mut lib: TextureLibrary<u8> = TextureLibrary::new(0);
    let slot = lib.register_texture(77, &TWO_PIXEL_PNG);
    assert_eq!(slot, Ok(1));
    let queued = lib.take_loading_queue();
    let (_, (image, slot)) = queued.iter().find(|(id, _)| *id == 77).unwrap();
    assert_eq!(*slot, 1);
    assert_eq!((image.width, image.height), (2, 1));
    assert_eq!(image.pixels, vec![255, 0, 0, 255, 0, 0, 255, 128]);
}

#[test]
fn register_refuses_garbage_but_uses_the_slot() {
    let mut lib: TextureLibrary<u8> = TextureLibrary::new(0);
    assert_eq!(lib.register_texture(5, &[1, 2, 3, 4]), Err(TextureError::InvalidImage));
    assert_eq!(lib.max_index(), 1);
    assert_eq!(lib.register_texture(6, &TWO_PIXEL_PNG), Ok(2));
    let queued = lib.take_loading_queue();
    assert_eq!(queued.len(), 2);
    assert!(queued.iter().all(|(id, _)| *id != 5));
}

#[test]
fn loaded_textures_by_slot() {
    let mut lib: TextureLibrary<&str> = TextureLibrary::new(0);
    let atlas = TextureImage { width: 1, height: 1, pixels: vec![0, 0, 0, 0] };
    assert_eq!(lib.register_built_texture(9, atlas), 1);
    assert_eq!(lib.register_texture(3, &TWO_PIXEL_PNG), Ok(2));
    lib.insert_loaded(2, 3, "png");
    lib.insert_loaded(0, 0, "white");
    lib.insert_loaded(1, 9, "atlas");
    let textures = lib.textures();
    assert_eq!(textures, vec![(0, &"white"), (1, &"atlas"), (2, &"png")]);
}

#[test]
fn white_pixel_image() {
    let white = TextureImage::white_pixel();
    assert_eq!((white.width, white.height), (1, 1));
    assert_eq!(white.pixels, vec![255; 4]);
}

#[test]
fn texture_uniform_grows_by_doubling() {
    let mut uniform: TextureUniform<&str, u32> = TextureUniform::new("layout", 1);
    assert_eq!(uniform.descriptor_size(), START_DESCRIPTOR_SIZE);
    assert_eq!(uniform.grow_for(15), None);
    assert_eq!(uniform.grow_for(16), Some(32));
    assert_eq!(uniform.descriptor_size(), 32);
    assert_eq!(uniform.grow_for(31), None);
    assert_eq!(*uniform.layout(), "layout");
}

#[test]
fn texture_uniform_writes_each_slot_once() {
    let mut uniform: TextureUniform<(), u32> = TextureUniform::new((), 1);
    assert_eq!(uniform.newly_loaded(&[0, 2, 0, 1]), vec![0, 2, 1]);
    assert_eq!(uniform.newly_loaded(&[1, 3, 2]), vec![3]);
    // a new set must get every texture again
    uniform.replace_set(2);
    assert_eq!(uniform.set(0), 2);
    assert_eq!(uniform.set_for_image(0), 1);
    assert_eq!(uniform.set_for_image(1), 2);
    assert_eq!(uniform.newly_loaded(&[3, 0]), vec![3, 0]);
    uniform.replace_set(5);
    assert_eq!(uniform.set(1), 5);
    assert_eq!(uniform.into_layout(), ());
}

#[test]
fn sane_texture_uniform_has_one_set() {
    let uniform: TextureUniform<(), u32> = TextureUniform::new((), 8);
    assert_eq!(uniform.set(3), 8);
    assert_eq!(uniform.set_for_image(3), 8);
}

#[test]
fn font_atlas_cells() {
    assert_eq!(FontAtlas::cell_origin(0), (0, 0));
    assert_eq!(FontAtlas::cell_origin(17), (CELL_SIZE, CELL_SIZE));
    assert_eq!(FontAtlas::cell_origin(255), (15 * 128, 15 * 128));
}

#[test]
fn font_atlas_draws_glyphs() {
    let mut atlas = FontAtlas::new();
    let (x, y) = FontAtlas::cell_origin(17);
    // a 2 x 3 glyph, row after row
    atlas.draw_glyph(&[1, 2, 3, 4, 5, 6], 2, 3, x, y);
    let image = atlas.into_image();
    assert_eq!((image.width, image.height), (ATLAS_SIZE, ATLAS_SIZE));
    let at = |px: u32, py: u32| {
        let b = ((py * ATLAS_SIZE + px) * 4) as usize;
        image.pixels[b..b + 4].to_vec()
    };
    assert_eq!(at(128, 128), vec![1; 4]);
    assert_eq!(at(129, 128), vec![2; 4]);
    assert_eq!(at(128, 130), vec![5; 4]);
    assert_eq!(at(129, 130), vec![6; 4]);
    assert_eq!(at(130, 128), vec![0; 4]);
    assert_eq!(at(127, 128), vec![0; 4]);
    assert_eq!(at(0, 0), vec![0; 4]);
}

#[test]
fn empty_glyph_draws_nothing() {
    let mut atlas = FontAtlas::new();
    atlas.draw_glyph(&[], 0, 0, 0, 0);
    atlas.draw_glyph(&[9, 9, 9], 0, 3, 2047, 0);
    let image = atlas.into_image();
    assert!(image.pixels.iter().all(|b| *b == 0));
    assert_eq!(image.pixels.len(), 4 * 2048 * 2048);
}

#[test]
fn queue_decoded_image_takes_the_next_slot() {
    let mut lib: TextureLibrary<u8> = TextureLibrary::new(0);
    let image = TextureImage { width: 1, height: 1, pixels: vec![1, 2, 3, 4] };
    assert_eq!(lib.queue_decoded(8, Ok(image)), Ok(1));
    assert_eq!(lib.queue_decoded(9, Err(TextureError::InvalidImage)), Err(TextureError::InvalidImage));
    assert_eq!(lib.max_index(), 2);
    let image = TextureImage { width: 1, height: 1, pixels: vec![5, 6, 7, 8] };
    assert_eq!(lib.queue_decoded(10, Ok(image)), Ok(3));
    let mut queued = lib.take_loading_queue();
    queued.sort_by_key(|(id, _)| *id);
    let summary: Vec<(u64, u32, Vec<u8>)> =
        queued.into_iter().map(|(id, (image, slot))| (id, slot, image.pixels)).collect();
    assert_eq!(
        summary,
        vec![(0, 0, vec![255; 4]), (8, 1, vec![1, 2, 3, 4]), (10, 3, vec![5, 6, 7, 8])]
    );
}

#[test]
fn populate_plan_grows_then_writes_every_slot() {
    let mut uniform: TextureUniform<(), u32> = TextureUniform::new((), 1);
    assert_eq!(uniform.newly_loaded(&[0, 1, 2]), vec![0, 1, 2]);
    // no growth: only the slots not yet written
    assert_eq!(uniform.populate_plan(15, &[0, 3, 3, 15]), (None, vec![3, 15]));
    // growth: the new set gets every slot once
    let (grow, slots) = uniform.populate_plan(16, &[0, 3, 16, 0]);
    assert_eq!(grow, Some(32));
    assert_eq!(slots, vec![0, 3, 16]);
    // the steps give the same
    assert_eq!(uniform.grow_for(16), Some(32));
    uniform.replace_set(2);
    assert_eq!(uniform.newly_loaded(&[0, 3, 16, 0]), slots);
}
