//! A uniform buffer of a graphic pipeline: one GPU buffer and one descriptor
//! set per swapchain image, each buffer holding one uniform per object.
//!
//! The buffer handles `B`, the layout `L` and the descriptor sets `S` are
//! carried through; the library tracks whether the memory is mapped, where a
//! uniform is written and when an image's buffer must grow.
use vstd::prelude::*;
use crate::descriptor::{DescriptorKind, BufferUsage, buffer_usage_for};

verus! {

/// Where the buffer memory stands.
#[derive(Clone, Copy, Debug, PartialEq, Eq, Structural)]
pub enum MemoryState {
    /// The buffer is mapped to the CPU and can be written.
    Mapped,
    /// The buffer is currently not mapped.
    AtRest,
    /// No buffer has been allocated yet.
    Uninitialized,
}

/// A descriptor set, the buffer it points to and that buffer's size in bytes.
pub struct ImageSlot<S, B> {
    pub set: S,
    pub buffer: B,
    pub size: u64,
}

/// One buffer per swapchain image, each with its descriptor set.
pub struct UniformBuffer<B, L, S> {
    /// The state of the buffers, whether they are mapped or not.
    buffer_state: MemoryState,
    /// DS layout
    layout: L,
    /// descriptor sets and buffers for each frame.
    sets_and_buffers: Vec<ImageSlot<S, B>>,
    /// Uniform buffer for per frame data, storage buffer for per object data.
    kind: DescriptorKind,
    /// The size in bytes of one uniform.
    element_size: usize,
}

impl<B, L, S: Copy> UniformBuffer<B, L, S> {
    pub closed spec fn state(&self) -> MemoryState {
        self.buffer_state
    }

    pub closed spec fn layout_spec(&self) -> L {
        self.layout
    }

    pub closed spec fn slots(&self) -> Seq<ImageSlot<S, B>> {
        self.sets_and_buffers@
    }

    pub closed spec fn kind_spec(&self) -> DescriptorKind {
        self.kind
    }

    pub closed spec fn element_size_spec(&self) -> usize {
        self.element_size
    }

    /// A uniform buffer over freshly allocated descriptor sets, one per image,
    /// each with an empty buffer, not yet initialized.
    pub fn new(layout: L, sets: Vec<S>, empty: B, kind: DescriptorKind, element_size: usize) -> (r:
        Self) where B: Copy
        ensures
            r.state() == MemoryState::Uninitialized,
            r.layout_spec() == layout,
            r.kind_spec() == kind,
            r.element_size_spec() == element_size,
            r.slots().len() == sets@.len(),
            forall|i: int|
                0 <= i < sets@.len() ==> #[trigger] r.slots()[i] == (ImageSlot {
                    set: sets@[i],
                    buffer: empty,
                    size: 0u64,
                }),
    {
        let mut slots: Vec<ImageSlot<S, B>> = Vec::new();
        let mut i: usize = 0;
        while i < sets.len()
            invariant
                0 <= i <= sets@.len(),
                slots@.len() == i,
                forall|j: int|
                    0 <= j < i ==> #[trigger] slots@[j] == (ImageSlot {
                        set: sets@[j],
                        buffer: empty,
                        size: 0u64,
                    }),
            decreases sets@.len() - i,
        {
            slots.push(ImageSlot { set: sets[i], buffer: empty, size: 0 });
            i = i + 1;
        }
        UniformBuffer {
            buffer_state: MemoryState::Uninitialized,
            layout,
            sets_and_buffers: slots,
            kind,
            element_size,
        }
    }

    /// Whether the buffer of the given image is to be mapped: only when the
    /// buffers are at rest. An uninitialized buffer may be of size zero and
    /// is left as it is. Nothing changes until the map succeeded and is
    /// recorded with `mapped`; a failed map leaves the buffers at rest.
    pub fn map(&self, image_index: usize) -> (r: bool)
        requires
            self.state() == MemoryState::AtRest ==> image_index < self.slots().len(),
        ensures
            r == (self.state() == MemoryState::AtRest),
    {
        match self.buffer_state {
            MemoryState::AtRest => true,
            _ => false,
        }
    }

    /// Records that the memory of a buffer at rest was mapped.
    pub fn mapped(&mut self)
        requires
            old(self).state() == MemoryState::AtRest,
        ensures
            final(self).state() == MemoryState::Mapped,
            final(self).slots() == old(self).slots(),
            final(self).layout_spec() == old(self).layout_spec(),
            final(self).kind_spec() == old(self).kind_spec(),
            final(self).element_size_spec() == old(self).element_size_spec(),
    {
        self.buffer_state = MemoryState::Mapped;
    }

    /// Where the uniform of `buffer_index` is to be written, in bytes from
    /// the start of the mapped memory; nothing is written unless mapped.
    pub fn update_buffer(&self, buffer_index: usize) -> (r: Option<usize>)
        requires
            self.element_size_spec() * buffer_index <= usize::MAX,
        ensures
            self.state() == MemoryState::Mapped ==> r == Some(
                (self.element_size_spec() * buffer_index) as usize,
            ),
            self.state() != MemoryState::Mapped ==> r is None,
    {
        match self.buffer_state {
            MemoryState::Mapped => Some(self.element_size * buffer_index),
            _ => None,
        }
    }

    /// Unmaps the buffer when it is mapped: returns whether the memory of the
    /// given image's buffer is to be unmapped.
    pub fn unmap(&mut self, _image_index: usize) -> (r: bool)
        requires
            old(self).state() == MemoryState::Mapped ==> _image_index < old(self).slots().len(),
        ensures
            r == (old(self).state() == MemoryState::Mapped),
            r ==> final(self).state() == MemoryState::AtRest,
            !r ==> final(self).state() == old(self).state(),
            final(self).slots() == old(self).slots(),
            final(self).layout_spec() == old(self).layout_spec(),
            final(self).kind_spec() == old(self).kind_spec(),
            final(self).element_size_spec() == old(self).element_size_spec(),
    {
        match self.buffer_state {
            MemoryState::Mapped => {
                self.buffer_state = MemoryState::AtRest;
                true
            },
            _ => false,
        }
    }

    /// The range in bytes the image's descriptor set points to: the whole
    /// buffer part that holds `object_count` uniforms, from its start.
    pub fn populate_descriptor_set(&self, object_count: usize) -> (r: (u64, u64))
        requires
            object_count * self.element_size_spec() <= u64::MAX,
            object_count * self.element_size_spec() <= usize::MAX,
        ensures
            r == (0u64, (object_count * self.element_size_spec()) as u64),
    {
        (0, (object_count * self.element_size) as u64)
    }

    /// Checks that the image's buffer holds `object_count` uniforms. When it
    /// does not, the buffers are no longer uninitialized, and the size and
    /// usage of the buffer to allocate in its place are returned (given back
    /// with `replace_buffer`, after which the descriptor set is written again).
    pub fn assert_buffer_size(&mut self, object_count: usize, image_index: usize) -> (r: Option<(
        u64,
        BufferUsage,
    )>)
        requires
            image_index < old(self).slots().len(),
            object_count * old(self).element_size_spec() <= u64::MAX,
            object_count * old(self).element_size_spec() <= usize::MAX,
            object_count * old(self).element_size_spec() > old(self).slots()[image_index as int].size
                ==> {
                &&& old(self).state() != MemoryState::Mapped
                &&& old(self).kind_spec() == DescriptorKind::UniformBuffer || old(self).kind_spec()
                    == DescriptorKind::StorageBuffer
            },
        ensures
            final(self).slots() == old(self).slots(),
            final(self).layout_spec() == old(self).layout_spec(),
            final(self).kind_spec() == old(self).kind_spec(),
            final(self).element_size_spec() == old(self).element_size_spec(),
            object_count * old(self).element_size_spec() > old(self).slots()[image_index as int].size
                ==> r == Some(
                (
                    (object_count * old(self).element_size_spec()) as u64,
                    if old(self).kind_spec() == DescriptorKind::UniformBuffer {
                        BufferUsage::Uniform
                    } else {
                        BufferUsage::Storage
                    },
                ),
            ) && final(self).state() == MemoryState::AtRest,
            object_count * old(self).element_size_spec() <= old(self).slots()[image_index as int].size
                ==> r is None && final(self).state() == old(self).state(),
    {
        let buffer_size = (object_count * self.element_size) as u64;
        if buffer_size > self.sets_and_buffers[image_index].size {
            // the buffer is no longer unititialized if it was
            self.buffer_state = MemoryState::AtRest;
            Some((buffer_size, buffer_usage_for(self.kind)))
        } else {
            None
        }
    }

    /// Puts a newly allocated buffer of `size` bytes in place of the image's
    /// buffer.
    pub fn replace_buffer(&mut self, image_index: usize, buffer: B, size: u64)
        requires
            image_index < old(self).slots().len(),
        ensures
            final(self).slots() == old(self).slots().update(
                image_index as int,
                ImageSlot { set: old(self).slots()[image_index as int].set, buffer, size },
            ),
            final(self).state() == old(self).state(),
            final(self).layout_spec() == old(self).layout_spec(),
            final(self).kind_spec() == old(self).kind_spec(),
            final(self).element_size_spec() == old(self).element_size_spec(),
    {
        let set = self.sets_and_buffers[image_index].set;
        self.sets_and_buffers.set(image_index, ImageSlot { set, buffer, size });
    }

    /// The image's buffer and its size.
    pub fn buffer(&self, image_index: usize) -> (r: (&B, u64))
        requires
            image_index < self.slots().len(),
        ensures
            *r.0 == self.slots()[image_index as int].buffer,
            r.1 == self.slots()[image_index as int].size,
    {
        let slot = &self.sets_and_buffers[image_index];
        (&slot.buffer, slot.size)
    }

    /// The descriptor set of the given swapchain image.
    pub fn set(&self, image_index: usize) -> (r: S)
        requires
            image_index < self.slots().len(),
        ensures
            r == self.slots()[image_index as int].set,
    {
        self.sets_and_buffers[image_index].set
    }

    pub fn layout(&self) -> (r: &L)
        ensures
            *r == self.layout_spec(),
    {
        &self.layout
    }

    pub fn descriptor_kind(&self) -> (r: DescriptorKind)
        ensures
            r == self.kind_spec(),
    {
        self.kind
    }
}

} // verus!
