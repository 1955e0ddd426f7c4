//! The texture uniform: one descriptor set holding every loaded texture,
//! with a variable descriptor count that doubles when the texture slots
//! outgrow it. The descriptor set being replaced stays alive while frames in
//! flight may still use it.
use vstd::prelude::*;
use std::collections::{BTreeSet, VecDeque};

verus! {

broadcast use vstd::std_specs::btree::group_btree_axioms;

/// Descriptor count of a freshly built texture uniform.
pub const START_DESCRIPTOR_SIZE: u32 = 16;

/// A Vulkan object that may be in the middle of being replaced.
pub enum SyncState<S> {
    /// One object, in use.
    Sane(S),
    /// Replacements, oldest first: the newest one is the one to use.
    Syncing(VecDeque<S>),
}

/// The object to use: the only one, or the newest replacement.
pub open spec fn current<S>(state: SyncState<S>) -> S {
    match state {
        SyncState::Sane(s) => s,
        SyncState::Syncing(v) => v@.last(),
    }
}

/// Every object of the state, oldest first.
pub open spec fn all_sets<S>(state: SyncState<S>) -> Seq<S> {
    match state {
        SyncState::Sane(s) => seq![s],
        SyncState::Syncing(v) => v@,
    }
}

/// The descriptor set of the textures, with its layout `L`; `S` is a descriptor set.
pub struct TextureUniform<L, S> {
    /// DS layout
    layout: L,
    /// descriptor set. We only need a single one for the read only textures.
    descriptor_set: SyncState<S>,
    /// The current number of descriptor we can have without reallocating the descriptor set.
    descriptor_size: u32,
    /// Keep track of loaded texture index.
    loaded_textures: BTreeSet<u32>,
}

impl<L, S: Copy> TextureUniform<L, S> {
    pub closed spec fn layout_spec(&self) -> L {
        self.layout
    }

    /// The descriptor sets, oldest first; the last one is written and bound.
    pub closed spec fn sets(&self) -> Seq<S> {
        all_sets(self.descriptor_set)
    }

    pub closed spec fn descriptor_size_spec(&self) -> u32 {
        self.descriptor_size
    }

    /// The texture slots written to the newest descriptor set.
    pub closed spec fn loaded(&self) -> Set<u32> {
        self.loaded_textures@
    }

    pub closed spec fn wf(&self) -> bool {
        self.descriptor_set matches SyncState::Syncing(v) ==> v@.len() >= 2
    }

    /// A texture uniform over a freshly allocated descriptor set of
    /// `START_DESCRIPTOR_SIZE` descriptors, with no texture written yet.
    pub fn new(layout: L, descriptor_set: S) -> (r: Self)
        ensures
            r.wf(),
            r.layout_spec() == layout,
            r.sets() == seq![descriptor_set],
            r.descriptor_size_spec() == START_DESCRIPTOR_SIZE,
            r.loaded() == Set::<u32>::empty(),
    {
        TextureUniform {
            layout,
            descriptor_set: SyncState::Sane(descriptor_set),
            descriptor_size: START_DESCRIPTOR_SIZE,
            loaded_textures: BTreeSet::new(),
        }
    }

    pub fn layout(&self) -> (r: &L)
        ensures
            *r == self.layout_spec(),
    {
        &self.layout
    }

    pub fn descriptor_size(&self) -> (r: u32)
        ensures
            r == self.descriptor_size_spec(),
    {
        self.descriptor_size
    }

    /// First step of populating the descriptor sets: when the largest
    /// texture slot does not fit in the descriptor count, the count doubles
    /// and is returned, and a descriptor set of that count is to be allocated
    /// and given to `replace_set`.
    pub fn grow_for(&mut self, max_index: u32) -> (r: Option<u32>)
        requires
            max_index >= old(self).descriptor_size_spec() ==> old(self).descriptor_size_spec() * 2
                <= u32::MAX,
        ensures
            final(self).layout_spec() == old(self).layout_spec(),
            final(self).sets() == old(self).sets(),
            final(self).loaded() == old(self).loaded(),
            final(self).wf() == old(self).wf(),
            max_index >= old(self).descriptor_size_spec() ==> r == Some(
                (old(self).descriptor_size_spec() * 2) as u32,
            ) && final(self).descriptor_size_spec() == old(self).descriptor_size_spec() * 2,
            max_index < old(self).descriptor_size_spec() ==> r is None
                && final(self).descriptor_size_spec() == old(self).descriptor_size_spec(),
    {
        if max_index >= self.descriptor_size {
            // need to reallocate the descriptor set.
            self.descriptor_size = self.descriptor_size * 2;
            Some(self.descriptor_size)
        } else {
            None
        }
    }

    /// Start using a new descriptor set: every texture must be written to it
    /// again, and the old sets stay until frames in flight are done with them.
    pub fn replace_set(&mut self, new_set: S)
        requires
            old(self).wf(),
        ensures
            final(self).wf(),
            final(self).layout_spec() == old(self).layout_spec(),
            final(self).sets() == old(self).sets().push(new_set),
            final(self).descriptor_size_spec() == old(self).descriptor_size_spec(),
            final(self).loaded() == Set::<u32>::empty(),
    {
        // clear the loaded textures, as we need to relaod all of them
        self.loaded_textures.clear();
        // update our state to syncing.
        let mut state = SyncState::Syncing(VecDeque::new());
        std::mem::swap(&mut state, &mut self.descriptor_set);
        self.descriptor_set = match state {
            SyncState::Sane(set) => {
                let mut sets = VecDeque::new();
                sets.push_back(set);
                sets.push_back(new_set);
                proof {
                    assert(sets@ =~= seq![set].push(new_set));
                }
                SyncState::Syncing(sets)
            },
            SyncState::Syncing(mut sets) => {
                sets.push_back(new_set);
                SyncState::Syncing(sets)
            },
        };
    }

    /// Second step of populating the descriptor sets: of the texture slots
    /// given, in order, those not yet written to the newest set, each once.
    /// They are from now on counted as written.
    pub fn newly_loaded(&mut self, indices: &[u32]) -> (r: Vec<u32>)
        ensures
            final(self).layout_spec() == old(self).layout_spec(),
            final(self).sets() == old(self).sets(),
            final(self).descriptor_size_spec() == old(self).descriptor_size_spec(),
            final(self).wf() == old(self).wf(),
            final(self).loaded() == old(self).loaded().union(indices@.to_set()),
            r@ == fresh_slots(indices@, old(self).loaded()),
    {
        write_fresh(indices, &mut self.loaded_textures)
    }

    /// How populating the descriptor sets goes for the texture slots
    /// `indices`, given the largest slot handed out: whether the descriptor
    /// count grows, and to what (after `grow_for`, a set of that count is
    /// given to `replace_set`), then the slots to write (what `newly_loaded`
    /// then gives): every slot once when the set is replaced, else those not
    /// yet written. When the largest slot is below twice the count and no
    /// slot given is above it, every slot to write fits the count after growth.
    pub fn populate_plan(&self, max_index: u32, indices: &[u32]) -> (r: (Option<u32>, Vec<u32>))
        requires
            max_index >= self.descriptor_size_spec() ==> self.descriptor_size_spec() * 2 <= u32::MAX,
        ensures
            max_index >= self.descriptor_size_spec() ==> r.0 == Some(
                (self.descriptor_size_spec() * 2) as u32,
            ) && r.1@ == fresh_slots(indices@, Set::<u32>::empty()),
            max_index < self.descriptor_size_spec() ==> r.0 is None && r.1@ == fresh_slots(
                indices@,
                self.loaded(),
            ),
            max_index < 2 * self.descriptor_size_spec() && (forall|i: int|
                0 <= i < indices@.len() ==> #[trigger] indices@[i] <= max_index) ==> forall|j: int|
                0 <= j < r.1@.len() ==> #[trigger] r.1@[j] < match r.0 {
                    Some(size) => size,
                    None => self.descriptor_size_spec(),
                },
    {
        let ghost grown_size: u32 = if max_index >= self.descriptor_size {
            (self.descriptor_size * 2) as u32
        } else {
            self.descriptor_size
        };
        let (grow, mut written) = if max_index >= self.descriptor_size {
            (Some(self.descriptor_size * 2), BTreeSet::new())
        } else {
            (None, self.loaded_textures.clone())
        };
        let ghost before = written@;
        let slots = write_fresh(indices, &mut written);
        proof {
            lemma_fresh_slots_from_indices(indices@, before);
            if max_index < 2 * self.descriptor_size && (forall|i: int|
                0 <= i < indices@.len() ==> #[trigger] indices@[i] <= max_index) {
                assert forall|j: int| 0 <= j < slots@.len() implies #[trigger] slots@[j] < grown_size by {
                    assert(indices@.contains(slots@[j]));
                    let i = choose|i: int| 0 <= i < indices@.len() && indices@[i] == slots@[j];
                    assert(indices@[i] <= max_index);
                }
            }
        }
        (grow, slots)
    }

    /// The descriptor set to write and bind: the newest one.
    pub fn set(&self, _image_index: usize) -> (r: S)
        requires
            self.wf(),
        ensures
            r == self.sets().last(),
    {
        match &self.descriptor_set {
            SyncState::Sane(set) => *set,
            SyncState::Syncing(sets) => sets[sets.len() - 1],
        }
    }

    /// The descriptor set of the frame with the given image index: while
    /// syncing, the set at that position.
    pub fn set_for_image(&self, image_index: usize) -> (r: S)
        requires
            self.wf(),
            self.sets().len() > 1 ==> image_index < self.sets().len(),
        ensures
            self.sets().len() == 1 ==> r == self.sets()[0],
            self.sets().len() > 1 ==> r == self.sets()[image_index as int],
    {
        match &self.descriptor_set {
            SyncState::Sane(set) => *set,
            SyncState::Syncing(sets) => sets[image_index],
        }
    }

    /// Give the layout back, to destroy it.
    pub fn into_layout(self) -> (r: L)
        ensures
            r == self.layout_spec(),
    {
        self.layout
    }
}

/// Of the slots given, in order, those not yet in `written`, each once;
/// they are added to `written`.
fn write_fresh(indices: &[u32], written: &mut BTreeSet<u32>) -> (r: Vec<u32>)
    ensures
        final(written)@ == old(written)@.union(indices@.to_set()),
        r@ == fresh_slots(indices@, old(written)@),
{
    let ghost start = written@;
    let mut out: Vec<u32> = Vec::new();
    let mut i: usize = 0;
    while i < indices.len()
        invariant
            0 <= i <= indices@.len(),
            start == old(written)@,
            written@ == start.union(indices@.take(i as int).to_set()),
            out@ == fresh_slots(indices@.take(i as int), start),
        decreases indices@.len() - i,
    {
        let index = indices[i];
        proof {
            assert(indices@.take(i + 1).drop_last() =~= indices@.take(i as int));
            crate::key_order::lemma_prefix_u32_set_push(indices@, i as int);
        }
        // will return true if the value was inserted, so the texture wasn't loaded.
        if written.insert(index) {
            out.push(index);
        }
        proof {
            assert(written@ =~= start.union(indices@.take(i + 1).to_set()));
        }
        i = i + 1;
    }
    proof {
        assert(indices@.take(indices@.len() as int) =~= indices@);
    }
    out
}

/// The slots of `indices`, in order, that are not in `loaded` and not
/// earlier in `indices`.
pub open spec fn fresh_slots(indices: Seq<u32>, loaded: Set<u32>) -> Seq<u32>
    decreases indices.len(),
{
    if indices.len() == 0 {
        Seq::empty()
    } else {
        let rest = fresh_slots(indices.drop_last(), loaded);
        let x = indices.last();
        if loaded.union(indices.drop_last().to_set()).contains(x) {
            rest
        } else {
            rest.push(x)
        }
    }
}

/// Slots already written are not written again: once `newly_loaded` has
/// counted slots as written, giving it any of them again writes none.
pub proof fn lemma_written_slots_stay_written(indices: Seq<u32>, loaded: Set<u32>)
    requires
        forall|i: int| 0 <= i < indices.len() ==> loaded.contains(#[trigger] indices[i]),
    ensures
        fresh_slots(indices, loaded) == Seq::<u32>::empty(),
    decreases indices.len(),
{
    if indices.len() > 0 {
        let rest = indices.drop_last();
        assert forall|i: int| 0 <= i < rest.len() implies loaded.contains(#[trigger] rest[i]) by {
            assert(rest[i] == indices[i]);
        }
        lemma_written_slots_stay_written(rest, loaded);
        assert(loaded.contains(indices[indices.len() - 1]));
    }
}

/// Every slot `fresh_slots` gives is one of the indices.
proof fn lemma_fresh_slots_from_indices(indices: Seq<u32>, loaded: Set<u32>)
    ensures
        forall|j: int|
            0 <= j < fresh_slots(indices, loaded).len() ==> indices.contains(
                #[trigger] fresh_slots(indices, loaded)[j],
            ),
    decreases indices.len(),
{
    if indices.len() > 0 {
        let rest = indices.drop_last();
        lemma_fresh_slots_from_indices(rest, loaded);
        assert forall|j: int|
            0 <= j < fresh_slots(indices, loaded).len() implies indices.contains(
                #[trigger] fresh_slots(indices, loaded)[j],
            ) by {
            let f = fresh_slots(rest, loaded);
            if j < f.len() {
                assert(rest.contains(f[j]));
                let i = choose|i: int| 0 <= i < rest.len() && rest[i] == f[j];
                assert(indices[i] == f[j]);
            } else {
                assert(indices[indices.len() - 1] == fresh_slots(indices, loaded)[j]);
            }
        }
    }
}

/// Populating the descriptor set writes only slots that it holds: when the
/// largest texture slot is below twice the descriptor count, then after
/// `grow_for` with that slot, every slot that `newly_loaded` gives for slots
/// up to it is below the descriptor count.
pub proof fn lemma_written_slots_fit<L, S: Copy>(
    before: TextureUniform<L, S>,
    grown: TextureUniform<L, S>,
    max_index: u32,
    indices: Seq<u32>,
)
    requires
        max_index < 2 * before.descriptor_size_spec(),
        max_index >= before.descriptor_size_spec() ==> grown.descriptor_size_spec()
            == before.descriptor_size_spec() * 2,
        max_index < before.descriptor_size_spec() ==> grown.descriptor_size_spec()
            == before.descriptor_size_spec(),
        forall|i: int| 0 <= i < indices.len() ==> #[trigger] indices[i] <= max_index,
    ensures
        max_index < grown.descriptor_size_spec(),
        forall|j: int|
            0 <= j < fresh_slots(indices, grown.loaded()).len() ==> #[trigger] fresh_slots(
                indices,
                grown.loaded(),
            )[j] < grown.descriptor_size_spec(),
{
    lemma_fresh_slots_from_indices(indices, grown.loaded());
    assert forall|j: int|
        0 <= j < fresh_slots(indices, grown.loaded()).len() implies #[trigger] fresh_slots(
            indices,
            grown.loaded(),
        )[j] < grown.descriptor_size_spec() by {
        let x = fresh_slots(indices, grown.loaded())[j];
        assert(indices.contains(x));
        let i = choose|i: int| 0 <= i < indices.len() && indices[i] == x;
        assert(indices[i] <= max_index);
    }
}

} // verus!
