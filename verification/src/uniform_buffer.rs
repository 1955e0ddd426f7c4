//! A uniform buffer shared by every swapchain image: one GPU buffer laid out
//! as `[ image 0 obj 0 | image 0 obj 1 | ... | image 0 obj n | image 1 obj 0 | ... ]`,
//! with one descriptor set per image looking at that image's part.
//!
//! The buffer handle `B`, the descriptor set layout `L` and the descriptor
//! sets `S` are carried through; the library decides where data goes, when
//! the buffer must grow and what each descriptor set must point to.
use vstd::prelude::*;
use crate::descriptor::{DescriptorKind, BufferUsage, buffer_usage_for};

verus! {

/// The byte where the uniform of `instance_id` for `image_index` starts.
pub open spec fn shared_offset(
    element_size: int,
    instance_count: int,
    image_index: int,
    instance_id: int,
) -> int {
    element_size * instance_count * image_index + element_size * instance_id
}

/// Every image holds `object_count` uniforms of `element_size` bytes, one
/// part after the other.
pub open spec fn shared_buffer_size(element_size: int, object_count: int, image_count: int) -> int {
    object_count * image_count * element_size
}

/// A uniform buffer holding the uniforms of every swapchain image.
pub struct UniformBuffer<B, L, S> {
    /// The allocated buffer containing all the uniform data.
    buffer: B,
    /// The size in bytes of `buffer`.
    buffer_size: u64,
    /// Whether the buffer is mapped for writing.
    mapped: bool,
    /// DS layout
    layout: L,
    /// descriptor sets, one per swapchain image.
    descriptor_sets: Vec<S>,
    /// The binding the uniform got when it was registered in the pipeline.
    binding: u32,
    /// Uniform buffer for per frame data, storage buffer for per object data.
    kind: DescriptorKind,
    /// The size in bytes of one uniform.
    element_size: usize,
}

impl<B, L, S: Copy> UniformBuffer<B, L, S> {
    pub closed spec fn buffer_spec(&self) -> B {
        self.buffer
    }

    pub closed spec fn buffer_size_spec(&self) -> u64 {
        self.buffer_size
    }

    pub closed spec fn is_mapped(&self) -> bool {
        self.mapped
    }

    pub closed spec fn layout_spec(&self) -> L {
        self.layout
    }

    pub closed spec fn sets(&self) -> Seq<S> {
        self.descriptor_sets@
    }

    pub closed spec fn binding_spec(&self) -> u32 {
        self.binding
    }

    pub closed spec fn kind_spec(&self) -> DescriptorKind {
        self.kind
    }

    pub closed spec fn element_size_spec(&self) -> usize {
        self.element_size
    }

    /// A uniform buffer with no memory yet (`empty`, of size zero), unmapped,
    /// over freshly allocated descriptor sets.
    pub fn new(
        empty: B,
        layout: L,
        descriptor_sets: Vec<S>,
        binding: u32,
        kind: DescriptorKind,
        element_size: usize,
    ) -> (r: Self)
        ensures
            r.buffer_spec() == empty,
            r.buffer_size_spec() == 0,
            !r.is_mapped(),
            r.layout_spec() == layout,
            r.sets() == descriptor_sets@,
            r.binding_spec() == binding,
            r.kind_spec() == kind,
            r.element_size_spec() == element_size,
    {
        UniformBuffer {
            buffer: empty,
            buffer_size: 0,
            mapped: false,
            layout,
            descriptor_sets,
            binding,
            kind,
            element_size,
        }
    }

    /// Records that the buffer memory was mapped to the CPU.
    pub fn map(&mut self)
        requires
            !old(self).is_mapped(),
        ensures
            final(self).is_mapped(),
            final(self).buffer_spec() == old(self).buffer_spec(),
            final(self).buffer_size_spec() == old(self).buffer_size_spec(),
            final(self).layout_spec() == old(self).layout_spec(),
            final(self).sets() == old(self).sets(),
            final(self).binding_spec() == old(self).binding_spec(),
            final(self).kind_spec() == old(self).kind_spec(),
            final(self).element_size_spec() == old(self).element_size_spec(),
    {
        self.mapped = true;
    }

    /// Records that the buffer memory was unmapped.
    pub fn unmap(&mut self)
        requires
            old(self).is_mapped(),
        ensures
            !final(self).is_mapped(),
            final(self).buffer_spec() == old(self).buffer_spec(),
            final(self).buffer_size_spec() == old(self).buffer_size_spec(),
            final(self).layout_spec() == old(self).layout_spec(),
            final(self).sets() == old(self).sets(),
            final(self).binding_spec() == old(self).binding_spec(),
            final(self).kind_spec() == old(self).kind_spec(),
            final(self).element_size_spec() == old(self).element_size_spec(),
    {
        self.mapped = false;
    }

    /// Where the uniform of `instance_id` for `image_index` is to be written,
    /// in bytes from the start of the mapped memory; nothing is written to an
    /// unmapped buffer.
    pub fn update_buffer(&self, instance_id: usize, image_index: usize, instance_count: usize) -> (r:
        Option<usize>)
        requires
            self.element_size_spec() * instance_count * image_index + self.element_size_spec()
                * instance_id <= usize::MAX,
            self.element_size_spec() * instance_count <= usize::MAX,
        ensures
            self.is_mapped() ==> r == Some(
                shared_offset(
                    self.element_size_spec() as int,
                    instance_count as int,
                    image_index as int,
                    instance_id as int,
                ) as usize,
            ),
            !self.is_mapped() ==> r is None,
    {
        if self.mapped {
            let size = self.element_size;
            proof {
                lemma_product_parts(size as int, instance_count as int, image_index as int, instance_id as int);
            }
            Some(size * instance_count * image_index + size * instance_id)
        } else {
            None
        }
    }

    /// What each image's descriptor set points to: `(offset, range)` in the
    /// buffer, the image's part of `object_count` uniforms.
    pub fn descriptor_ranges(&self, image_count: usize, object_count: usize) -> (r: Vec<(u64, u64)>)
        requires
            object_count * self.element_size_spec() * image_count <= u64::MAX,
            object_count * self.element_size_spec() * image_count <= usize::MAX,
        ensures
            r@.len() == image_count,
            forall|i: int|
                0 <= i < image_count ==> #[trigger] r@[i] == (
                    (object_count * self.element_size_spec() * i) as u64,
                    (object_count * self.element_size_spec()) as u64,
                ),
    {
        let size = self.element_size;
        let mut ranges: Vec<(u64, u64)> = Vec::new();
        let mut i: usize = 0;
        while i < image_count
            invariant
                size == self.element_size_spec(),
                0 <= i <= image_count,
                object_count * size * image_count <= u64::MAX,
                object_count * size * image_count <= usize::MAX,
                ranges@.len() == i,
                forall|j: int|
                    0 <= j < i ==> #[trigger] ranges@[j] == (
                        (object_count * size * j) as u64,
                        (object_count * size) as u64,
                    ),
            decreases image_count - i,
        {
            proof {
                lemma_part_fits(object_count as int, size as int, i as int, image_count as int);
            }
            let part = object_count * size;
            ranges.push(((part * i) as u64, part as u64));
            i = i + 1;
        }
        ranges
    }

    /// Checks that the buffer holds `object_count` uniforms for each of
    /// `image_count` images. When it does not, returns the size and usage of
    /// the buffer to allocate in its place (given back with `replace_buffer`,
    /// after which the descriptor sets are written again).
    pub fn assert_buffer_size(&self, object_count: usize, image_count: usize) -> (r: Option<(
        u64,
        BufferUsage,
    )>)
        requires
            object_count * image_count * self.element_size_spec() <= u64::MAX,
            object_count * image_count * self.element_size_spec() <= usize::MAX,
            object_count * image_count <= usize::MAX,
            shared_buffer_size(self.element_size_spec() as int, object_count as int, image_count as int)
                > self.buffer_size_spec() ==> (self.kind_spec() == DescriptorKind::UniformBuffer
                || self.kind_spec() == DescriptorKind::StorageBuffer),
        ensures
            shared_buffer_size(self.element_size_spec() as int, object_count as int, image_count as int)
                > self.buffer_size_spec() ==> r == Some(
                (
                    shared_buffer_size(
                        self.element_size_spec() as int,
                        object_count as int,
                        image_count as int,
                    ) as u64,
                    if self.kind_spec() == DescriptorKind::UniformBuffer {
                        BufferUsage::Uniform
                    } else {
                        BufferUsage::Storage
                    },
                ),
            ),
            shared_buffer_size(self.element_size_spec() as int, object_count as int, image_count as int)
                <= self.buffer_size_spec() ==> r is None,
    {
        let buffer_size = (object_count * image_count * self.element_size) as u64;
        if buffer_size > self.buffer_size {
            Some((buffer_size, buffer_usage_for(self.kind)))
        } else {
            None
        }
    }

    /// Puts a newly allocated buffer of `size` bytes in place of the old one,
    /// which is given back with its size, to be destroyed when it holds memory.
    pub fn replace_buffer(&mut self, buffer: B, size: u64) -> (r: (B, u64))
        ensures
            r == (old(self).buffer_spec(), old(self).buffer_size_spec()),
            final(self).buffer_spec() == buffer,
            final(self).buffer_size_spec() == size,
            final(self).is_mapped() == old(self).is_mapped(),
            final(self).layout_spec() == old(self).layout_spec(),
            final(self).sets() == old(self).sets(),
            final(self).binding_spec() == old(self).binding_spec(),
            final(self).kind_spec() == old(self).kind_spec(),
            final(self).element_size_spec() == old(self).element_size_spec(),
    {
        let mut old_buffer = buffer;
        std::mem::swap(&mut self.buffer, &mut old_buffer);
        let old_size = self.buffer_size;
        self.buffer_size = size;
        (old_buffer, old_size)
    }

    pub fn buffer(&self) -> (r: &B)
        ensures
            *r == self.buffer_spec(),
    {
        &self.buffer
    }

    pub fn buffer_size(&self) -> (r: u64)
        ensures
            r == self.buffer_size_spec(),
    {
        self.buffer_size
    }

    pub fn binding(&self) -> (r: u32)
        ensures
            r == self.binding_spec(),
    {
        self.binding
    }

    pub fn descriptor_kind(&self) -> (r: DescriptorKind)
        ensures
            r == self.kind_spec(),
    {
        self.kind
    }

    /// The descriptor set of the given swapchain image.
    pub fn set(&self, image_index: usize) -> (r: S)
        requires
            image_index < self.sets().len(),
        ensures
            r == self.sets()[image_index as int],
    {
        self.descriptor_sets[image_index]
    }

    pub fn layout(&self) -> (r: &L)
        ensures
            *r == self.layout_spec(),
    {
        &self.layout
    }
}

proof fn lemma_product_parts(size: int, count: int, image: int, id: int)
    requires
        size >= 0,
        count >= 0,
        image >= 0,
        id >= 0,
    ensures
        size * count * image >= 0,
        size * id >= 0,
        size * count >= 0,
{
    assert(size * count >= 0) by (nonlinear_arith)
        requires
            size >= 0,
            count >= 0,
    ;
    assert(size * count * image >= 0) by (nonlinear_arith)
        requires
            size * count >= 0,
            image >= 0,
    ;
    assert(size * id >= 0) by (nonlinear_arith)
        requires
            size >= 0,
            id >= 0,
    ;
}

proof fn lemma_part_fits(count: int, size: int, i: int, n: int)
    requires
        count >= 0,
        size >= 0,
        0 <= i < n,
    ensures
        0 <= count * size <= count * size * n,
        0 <= count * size * i <= count * size * n,
{
    assert(0 <= count * size) by (nonlinear_arith)
        requires
            count >= 0,
            size >= 0,
    ;
    assert(count * size <= count * size * n) by (nonlinear_arith)
        requires
            count * size >= 0,
            n >= 1,
    ;
    assert(0 <= count * size * i <= count * size * n) by (nonlinear_arith)
        requires
            count * size >= 0,
            0 <= i < n,
    ;
}

/// The uniform of an instance lies inside the part of the buffer that its
/// image's descriptor set points to, and inside a buffer that holds every
/// image's part.
pub proof fn lemma_uniform_in_image_range(
    element_size: int,
    object_count: int,
    image_count: int,
    image_index: int,
    instance_id: int,
)
    requires
        element_size >= 0,
        0 <= image_index < image_count,
        0 <= instance_id < object_count,
    ensures
        object_count * element_size * image_index <= shared_offset(
            element_size,
            object_count,
            image_index,
            instance_id,
        ),
        shared_offset(element_size, object_count, image_index, instance_id) + element_size
            <= object_count * element_size * image_index + object_count * element_size,
        shared_offset(element_size, object_count, image_index, instance_id) + element_size
            <= shared_buffer_size(element_size, object_count, image_count),
{
    let s = element_size;
    let c = object_count;
    let n = image_count;
    let i = image_index;
    let k = instance_id;
    assert(s * c * i == c * s * i) by (nonlinear_arith);
    assert(s * k >= 0) by (nonlinear_arith)
        requires
            s >= 0,
            k >= 0,
    ;
    assert(s * k + s <= c * s) by (nonlinear_arith)
        requires
            s >= 0,
            0 <= k < c,
    ;
    assert(c * s * i + c * s <= c * n * s) by (nonlinear_arith)
        requires
            s >= 0,
            c >= 0,
            0 <= i < n,
    ;
}

/// Two different uniforms of the buffer never share a byte: distinct
/// (image, instance) pairs start at least one uniform apart.
pub proof fn lemma_uniforms_disjoint(
    element_size: int,
    object_count: int,
    image_a: int,
    id_a: int,
    image_b: int,
    id_b: int,
)
    requires
        element_size >= 0,
        image_a >= 0,
        image_b >= 0,
        0 <= id_a < object_count,
        0 <= id_b < object_count,
        image_a != image_b || id_a != id_b,
    ensures
        shared_offset(element_size, object_count, image_a, id_a) + element_size <= shared_offset(
            element_size,
            object_count,
            image_b,
            id_b,
        ) || shared_offset(element_size, object_count, image_b, id_b) + element_size
            <= shared_offset(element_size, object_count, image_a, id_a),
{
    let s = element_size;
    let c = object_count;
    let ia = image_a * c + id_a;
    let ib = image_b * c + id_b;
    assert(s * c * image_a + s * id_a == s * ia) by (nonlinear_arith)
        requires
            ia == image_a * c + id_a,
    ;
    assert(s * c * image_b + s * id_b == s * ib) by (nonlinear_arith)
        requires
            ib == image_b * c + id_b,
    ;
    assert(ia != ib) by (nonlinear_arith)
        requires
            ia == image_a * c + id_a,
            ib == image_b * c + id_b,
            0 <= id_a < c,
            0 <= id_b < c,
            image_a != image_b || id_a != id_b,
    ;
    assert(s * ia + s <= s * ib || s * ib + s <= s * ia) by (nonlinear_arith)
        requires
            s >= 0,
            ia != ib,
    ;
}

} // verus!
