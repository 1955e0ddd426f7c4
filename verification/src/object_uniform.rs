//! A per object uniform read through a dynamic offset: one GPU buffer in
//! which each object has one uniform per swapchain image, laid out as
//! `[ obj 0 image 0 | obj 0 image 1 | ... | obj 1 image 0 | ... ]`; every
//! descriptor set looks at one uniform, and the draw call gives the offset.
use vstd::prelude::*;

verus! {

/// The byte where the uniform of the object at `offset` for `image_index` starts.
pub open spec fn object_byte_offset(
    object_size: int,
    offset: int,
    image_index: int,
    image_count: int,
) -> int {
    object_size * offset * image_count + object_size * image_index
}

/// A buffer holding one uniform per image for each of `entity_count` objects.
pub open spec fn object_buffer_size(object_size: int, entity_count: int, image_count: int) -> int {
    entity_count * image_count * object_size
}

/// Packs up a per object uniform: its buffer `B`, layout `L` and descriptor sets `S`.
pub struct PerObjectUniformObject<B, L, S> {
    /// Size of the inner object used as uniform.
    object_size: usize,
    /// The buffer to upload the uniforms to.
    buffer: B,
    /// The size in bytes of `buffer`.
    buffer_size: u64,
    /// The descriptor set layout.
    layout: L,
    /// The descriptor sets, one for each swapchain image.
    sets: Vec<S>,
}

impl<B, L, S: Copy> PerObjectUniformObject<B, L, S> {
    pub closed spec fn object_size_spec(&self) -> usize {
        self.object_size
    }

    pub closed spec fn buffer_spec(&self) -> B {
        self.buffer
    }

    pub closed spec fn buffer_size_spec(&self) -> u64 {
        self.buffer_size
    }

    pub closed spec fn layout_spec(&self) -> L {
        self.layout
    }

    pub closed spec fn sets_spec(&self) -> Seq<S> {
        self.sets@
    }

    /// A per object uniform over its first buffer, of `buffer_size` bytes
    /// (a buffer cannot be empty, so it starts too small and grows with the
    /// scene), and its descriptor sets.
    pub fn new(buffer: B, buffer_size: u64, layout: L, sets: Vec<S>, object_size: usize) -> (r: Self)
        ensures
            r.object_size_spec() == object_size,
            r.buffer_spec() == buffer,
            r.buffer_size_spec() == buffer_size,
            r.layout_spec() == layout,
            r.sets_spec() == sets@,
    {
        PerObjectUniformObject { object_size, buffer, buffer_size, layout, sets }
    }

    /// What every descriptor set points to: one uniform, from the start of
    /// the buffer; the dynamic offset moves it to the object's uniform.
    pub fn descriptor_range(&self) -> (r: (u64, u64))
        ensures
            r == (0u64, self.object_size_spec() as u64),
    {
        (0, self.object_size as u64)
    }

    /// Where the uniform of the object at `offset` for `image_index` starts,
    /// in bytes.
    pub fn byte_offset(&self, offset: usize, image_index: usize, swapchain_image_count: usize) -> (r:
        usize)
        requires
            self.object_size_spec() * offset <= usize::MAX,
            object_byte_offset(
                self.object_size_spec() as int,
                offset as int,
                image_index as int,
                swapchain_image_count as int,
            ) <= usize::MAX,
        ensures
            r == object_byte_offset(
                self.object_size_spec() as int,
                offset as int,
                image_index as int,
                swapchain_image_count as int,
            ),
    {
        let size = self.object_size;
        proof {
            lemma_nonneg_parts(size as int, offset as int, image_index as int, swapchain_image_count as int);
        }
        size * offset * swapchain_image_count + size * image_index
    }

    /// Checks that the buffer holds a uniform per image for `entity_count`
    /// objects; when it does not, returns the size of the buffer to allocate
    /// in its place (given back with `replace_buffer`, after which the
    /// descriptor sets are written again).
    pub fn resize_buffer(&self, swapchain_images_count: usize, entity_count: usize) -> (r: Option<
        u64,
    >)
        requires
            entity_count * swapchain_images_count <= usize::MAX,
            object_buffer_size(
                self.object_size_spec() as int,
                entity_count as int,
                swapchain_images_count as int,
            ) <= usize::MAX,
        ensures
            self.buffer_size_spec() < object_buffer_size(
                self.object_size_spec() as int,
                entity_count as int,
                swapchain_images_count as int,
            ) ==> r == Some(
                object_buffer_size(
                    self.object_size_spec() as int,
                    entity_count as int,
                    swapchain_images_count as int,
                ) as u64,
            ),
            self.buffer_size_spec() >= object_buffer_size(
                self.object_size_spec() as int,
                entity_count as int,
                swapchain_images_count as int,
            ) ==> r is None,
    {
        let new_size = entity_count * swapchain_images_count * self.object_size;
        if self.buffer_size < new_size as u64 {
            Some(new_size as u64)
        } else {
            None
        }
    }

    /// Puts a newly allocated buffer of `size` bytes in place of the old one,
    /// which is given back to be freed.
    pub fn replace_buffer(&mut self, buffer: B, size: u64) -> (r: B)
        ensures
            r == old(self).buffer_spec(),
            final(self).buffer_spec() == buffer,
            final(self).buffer_size_spec() == size,
            final(self).object_size_spec() == old(self).object_size_spec(),
            final(self).layout_spec() == old(self).layout_spec(),
            final(self).sets_spec() == old(self).sets_spec(),
    {
        let mut old_buffer = buffer;
        std::mem::swap(&mut self.buffer, &mut old_buffer);
        self.buffer_size = size;
        old_buffer
    }

    pub fn object_size(&self) -> (r: usize)
        ensures
            r == self.object_size_spec(),
    {
        self.object_size
    }

    pub fn buffer(&self) -> (r: &B)
        ensures
            *r == self.buffer_spec(),
    {
        &self.buffer
    }

    pub fn buffer_size(&self) -> (r: u64)
        ensures
            r == self.buffer_size_spec(),
    {
        self.buffer_size
    }

    /// Get the descriptor set for the given image index.
    pub fn set(&self, image_index: usize) -> (r: S)
        requires
            image_index < self.sets_spec().len(),
        ensures
            r == self.sets_spec()[image_index as int],
    {
        self.sets[image_index]
    }

    pub fn layout(&self) -> (r: &L)
        ensures
            *r == self.layout_spec(),
    {
        &self.layout
    }

    /// Gives the buffer back, to be freed.
    pub fn into_buffer(self) -> (r: B)
        ensures
            r == self.buffer_spec(),
    {
        self.buffer
    }
}

proof fn lemma_nonneg_parts(size: int, offset: int, image: int, count: int)
    requires
        size >= 0,
        offset >= 0,
        image >= 0,
        count >= 0,
    ensures
        size * offset >= 0,
        size * offset * count >= 0,
        size * image >= 0,
{
    assert(size * offset >= 0) by (nonlinear_arith)
        requires
            size >= 0,
            offset >= 0,
    ;
    assert(size * offset * count >= 0) by (nonlinear_arith)
        requires
            size * offset >= 0,
            count >= 0,
    ;
    assert(size * image >= 0) by (nonlinear_arith)
        requires
            size >= 0,
            image >= 0,
    ;
}

/// The uniform of every object and image lies inside a buffer sized for the
/// objects, and two different (object, image) pairs never share a byte.
pub proof fn lemma_object_uniforms_laid_out(
    object_size: int,
    entity_count: int,
    image_count: int,
    offset_a: int,
    image_a: int,
    offset_b: int,
    image_b: int,
)
    requires
        object_size >= 0,
        0 <= offset_a < entity_count,
        0 <= offset_b < entity_count,
        0 <= image_a < image_count,
        0 <= image_b < image_count,
    ensures
        0 <= object_byte_offset(object_size, offset_a, image_a, image_count),
        object_byte_offset(object_size, offset_a, image_a, image_count) + object_size
            <= object_buffer_size(object_size, entity_count, image_count),
        offset_a != offset_b || image_a != image_b ==> {
            ||| object_byte_offset(object_size, offset_a, image_a, image_count) + object_size
                <= object_byte_offset(object_size, offset_b, image_b, image_count)
            ||| object_byte_offset(object_size, offset_b, image_b, image_count) + object_size
                <= object_byte_offset(object_size, offset_a, image_a, image_count)
        },
{
    let s = object_size;
    let n = image_count;
    let ia = offset_a * n + image_a;
    let ib = offset_b * n + image_b;
    assert(s * offset_a * n + s * image_a == s * ia) by (nonlinear_arith)
        requires
            ia == offset_a * n + image_a,
    ;
    assert(s * offset_b * n + s * image_b == s * ib) by (nonlinear_arith)
        requires
            ib == offset_b * n + image_b,
    ;
    assert(0 <= ia && ia + 1 <= entity_count * n) by (nonlinear_arith)
        requires
            ia == offset_a * n + image_a,
            0 <= offset_a < entity_count,
            0 <= image_a < n,
    ;
    assert(0 <= s * ia && s * ia + s <= entity_count * n * s) by (nonlinear_arith)
        requires
            s >= 0,
            0 <= ia,
            ia + 1 <= entity_count * n,
    ;
    if offset_a != offset_b || image_a != image_b {
        assert(ia != ib) by (nonlinear_arith)
            requires
                ia == offset_a * n + image_a,
                ib == offset_b * n + image_b,
                0 <= image_a < n,
                0 <= image_b < n,
                offset_a != offset_b || image_a != image_b,
        ;
        assert(s * ia + s <= s * ib || s * ib + s <= s * ia) by (nonlinear_arith)
            requires
                s >= 0,
                ia != ib,
        ;
    }
}

} // verus!
