//! A per frame uniform: one buffer holding one copy of the uniform per
//! swapchain image, the copy of image `i` at `i` uniforms from the start.
use vstd::prelude::*;

verus! {

/// Size in bytes of the buffer of a per frame uniform: one uniform per image.
pub fn frame_buffer_size(object_size: usize, image_count: usize) -> (r: u64)
    requires
        object_size * image_count <= usize::MAX,
    ensures
        r == object_size * image_count,
{
    (object_size * image_count) as u64
}

/// Where the copy of the uniform for `image_index` starts, in bytes.
pub fn frame_window(object_size: usize, image_index: usize) -> (r: usize)
    requires
        image_index * object_size <= usize::MAX,
    ensures
        r == image_index * object_size,
{
    image_index * object_size
}

/// The copies of the uniform for two different images never share a byte,
/// and each lies inside the buffer.
pub proof fn lemma_frame_windows_disjoint(object_size: int, image_count: int, a: int, b: int)
    requires
        object_size >= 0,
        0 <= a < image_count,
        0 <= b < image_count,
    ensures
        0 <= a * object_size,
        a * object_size + object_size <= object_size * image_count,
        a != b ==> a * object_size + object_size <= b * object_size || b * object_size
            + object_size <= a * object_size,
{
    assert(0 <= a * object_size && a * object_size + object_size <= object_size * image_count)
        by (nonlinear_arith)
        requires
            object_size >= 0,
            0 <= a < image_count,
    ;
    assert(a != b ==> a * object_size + object_size <= b * object_size || b * object_size
        + object_size <= a * object_size) by (nonlinear_arith)
        requires
            object_size >= 0,
    ;
}

} // verus!
