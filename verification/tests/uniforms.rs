use propellant::descriptor::{buffer_usage_for, descriptor_pool_sizes, BufferUsage, DescriptorKind};
use propellant::uniform_buffer::UniformBuffer;
use propellant::image_uniform_buffer::{self, MemoryState};
use propellant::object_uniform::PerObjectUniformObject;
use propellant::per_object_uniforms::PerObjectUniforms;

#[test]
fn usage_of_buffer_descriptors() {
    assert_eq!(buffer_usage_for(DescriptorKind::UniformBuffer), BufferUsage::Uniform);
    assert_eq!(buffer_usage_for(DescriptorKind::StorageBuffer), BufferUsage::Storage);
}

#[test]
fn pool_sizes_count_each_kind() {
    let kinds = [
        DescriptorKind::CombinedImageSampler,
        DescriptorKind::UniformBuffer,
        DescriptorKind::UniformBuffer,
        DescriptorKind::StorageBuffer,
    ];
    let (mut sizes, sets) = descriptor_pool_sizes(&kinds, 3);
    assert_eq!(sets, 12);
    sizes.sort_by_key(|(kind, _)| *kind as u8);
    assert_eq!(
        sizes,
        vec![
            (DescriptorKind::UniformBuffer, 6),
            (DescriptorKind::StorageBuffer, 3),
            (DescriptorKind::CombinedImageSampler, 3),
        ]
    );
}

#[test]
fn pool_sizes_of_no_uniform() {
    let (sizes, sets) = descriptor_pool_sizes(&[], 3);
    assert!(sizes.is_empty());
    assert_eq!(sets, 0);
}

#[test]
fn shared_buffer_offsets_and_ranges() {
    let mut buffer: UniformBuffer<u32, (), u8> =
        UniformBuffer::new(0, (), vec![10, 11, 12], 1, DescriptorKind::StorageBuffer, 64);
    assert_eq!(buffer.buffer_size(), 0);
    // nothing is written to an unmapped buffer
    assert_eq!(buffer.update_buffer(2, 1, 5), None);
    buffer.map();
    // image 1 starts after the 5 uniforms of image 0
    assert_eq!(buffer.update_buffer(2, 1, 5), Some(64 * 5 + 64 * 2));
    buffer.unmap();
    assert_eq!(buffer.update_buffer(0, 0, 5), None);
    assert_eq!(
        buffer.descriptor_ranges(3, 5),
        vec![(0, 320), (320, 320), (640, 320)]
    );
    assert_eq!(buffer.set(2), 12);
    assert_eq!(buffer.binding(), 1);
    assert_eq!(buffer.descriptor_kind(), DescriptorKind::StorageBuffer);
}

#[test]
fn shared_buffer_grows_when_too_small() {
    let mut buffer: UniformBuffer<u32, (), u8> =
        UniformBuffer::new(0, (), vec![1, 2], 0, DescriptorKind::UniformBuffer, 16);
    assert_eq!(buffer.assert_buffer_size(0, 2), None);
    assert_eq!(buffer.assert_buffer_size(3, 2), Some((96, BufferUsage::Uniform)));
    let (old, old_size) = buffer.replace_buffer(7, 96);
    assert_eq!((old, old_size), (0, 0));
    assert_eq!(*buffer.buffer(), 7);
    assert_eq!(buffer.assert_buffer_size(3, 2), None);
    assert_eq!(buffer.assert_buffer_size(2, 3), None);
    assert_eq!(buffer.assert_buffer_size(4, 2), Some((128, BufferUsage::Uniform)));
}

#[test]
fn image_buffers_state_machine() {
    let mut buffer: image_uniform_buffer::UniformBuffer<u32, (), u8> =
        image_uniform_buffer::UniformBuffer::new((), vec![4, 5], 0, DescriptorKind::StorageBuffer, 32);
    // an uninitialized buffer is never mapped
    assert!(!buffer.map(0));
    assert_eq!(buffer.update_buffer(3), None);
    assert!(!buffer.unmap(0));
    // allocating the first buffer puts it at rest
    assert_eq!(buffer.assert_buffer_size(4, 1), Some((128, BufferUsage::Storage)));
    buffer.replace_buffer(1, 99, 128);
    assert_eq!(buffer.buffer(1), (&99, 128));
    assert_eq!(buffer.buffer(0), (&0, 0));
    assert_eq!(buffer.assert_buffer_size(4, 1), None);
    assert!(buffer.map(1));
    // until the map is recorded, nothing is written
    assert_eq!(buffer.update_buffer(3), None);
    buffer.mapped();
    assert_eq!(buffer.update_buffer(3), Some(96));
    // mapping twice does nothing more
    assert!(!buffer.map(1));
    assert!(buffer.unmap(1));
    assert!(!buffer.unmap(1));
    assert_eq!(buffer.populate_descriptor_set(4), (0, 128));
    assert_eq!(buffer.set(1), 5);
    assert_eq!(buffer.descriptor_kind(), DescriptorKind::StorageBuffer);
    let _ = MemoryState::AtRest;
}

#[test]
fn object_uniform_offsets() {
    let mut object: PerObjectUniformObject<u32, (), u8> =
        PerObjectUniformObject::new(1, 1, (), vec![0, 1, 2], 64);
    assert_eq!(object.descriptor_range(), (0, 64));
    // uniforms of an object for every image come together
    assert_eq!(object.byte_offset(0, 0, 3), 0);
    assert_eq!(object.byte_offset(0, 2, 3), 128);
    assert_eq!(object.byte_offset(2, 1, 3), 64 * 2 * 3 + 64);
    assert_eq!(object.resize_buffer(3, 4), Some(768));
    assert_eq!(object.replace_buffer(5, 768), 1);
    assert_eq!(object.resize_buffer(3, 4), None);
    assert_eq!(object.resize_buffer(3, 5), Some(960));
    assert_eq!(object.buffer_size(), 768);
    assert_eq!(object.object_size(), 64);
    assert_eq!(object.set(1), 1);
    assert_eq!(object.into_buffer(), 5);
}

#[test]
fn per_object_uniforms_place_entities() {
    let a: PerObjectUniformObject<u32, (), u8> = PerObjectUniformObject::new(1, 1, (), vec![10, 11], 16);
    let b: PerObjectUniformObject<u32, (), u8> = PerObjectUniformObject::new(2, 4096, (), vec![20, 21], 32);
    let mut uniforms = PerObjectUniforms::new(vec![a, b]);
    assert_eq!(uniforms.entity_count(), 0);
    // unknown entities ask for a scene recreation
    assert_eq!(uniforms.update(42), None);
    assert!(uniforms.bind(0, 2, 42).is_none());
    let plans = uniforms.scene_recreation(&[42, 7, 9], 2);
    assert_eq!(plans, vec![Some(96), None]);
    assert_eq!(uniforms.entity_count(), 3);
    assert_eq!(uniforms.update(42), Some(0));
    assert_eq!(uniforms.update(9), Some(2));
    assert_eq!(uniforms.update(8), None);
    let (sets, offsets) = uniforms.bind(1, 2, 7).unwrap();
    assert_eq!(sets, vec![11, 21]);
    assert_eq!(offsets, vec![16 * 2 + 16, 32 * 2 + 32]);
    assert_eq!(uniforms.replace_buffer(0, 3, 96), 1);
    assert_eq!(uniforms.uniforms()[0].buffer_size(), 96);
    assert_eq!(uniforms.scene_recreation(&[1, 2, 3], 2), vec![None, None]);
    assert_eq!(uniforms.update(42), None);
}

#[test]
fn shared_uniforms_never_overlap() {
    let mut buffer: UniformBuffer<u32, (), u8> =
        UniformBuffer::new(0, (), vec![0, 1, 2], 0, DescriptorKind::StorageBuffer, 48);
    buffer.map();
    let (images, objects) = (3usize, 5usize);
    let ranges = buffer.descriptor_ranges(images, objects);
    let mut starts = Vec::new();
    for image in 0..images {
        for id in 0..objects {
            let start = buffer.update_buffer(id, image, objects).unwrap() as u64;
            let (offset, range) = ranges[image];
            assert!(offset <= start && start + 48 <= offset + range);
            assert!(start + 48 <= (objects * images * 48) as u64);
            starts.push(start);
        }
    }
    starts.sort();
    for pair in starts.windows(2) {
        assert!(pair[0] + 48 <= pair[1]);
    }
}

#[test]
fn object_uniforms_never_overlap() {
    let object: PerObjectUniformObject<u32, (), u8> = PerObjectUniformObject::new(0, 0, (), vec![0, 1], 24);
    let (images, entities) = (2usize, 4usize);
    let size = object.resize_buffer(images, entities).unwrap();
    let mut starts = Vec::new();
    for entity in 0..entities {
        for image in 0..images {
            let start = object.byte_offset(entity, image, images);
            assert!((start + 24) as u64 <= size);
            starts.push(start);
        }
    }
    starts.sort();
    for pair in starts.windows(2) {
        assert!(pair[0] + 24 <= pair[1]);
    }
}

#[test]
fn shared_buffer_of_other_kind_that_does_not_grow() {
    let buffer: UniformBuffer<u32, (), u8> =
        UniformBuffer::new(0, (), vec![1], 0, DescriptorKind::CombinedImageSampler, 16);
    assert_eq!(buffer.assert_buffer_size(0, 1), None);
    assert_eq!(buffer.assert_buffer_size(5, 0), None);
}

#[test]
fn distinct_entities_take_their_own_position() {
    let a: PerObjectUniformObject<u32, (), u8> = PerObjectUniformObject::new(1, 0, (), vec![0], 8);
    let mut uniforms = PerObjectUniforms::new(vec![a]);
    uniforms.scene_recreation(&[30, 10, 20, 40], 1);
    for (k, e) in [30u64, 10, 20, 40].iter().enumerate() {
        assert_eq!(uniforms.update(*e), Some(k));
    }
    // an entity listed twice keeps its last position
    uniforms.scene_recreation(&[5, 6, 5], 1);
    assert_eq!(uniforms.update(5), Some(2));
    assert_eq!(uniforms.entity_count(), 3);
}
