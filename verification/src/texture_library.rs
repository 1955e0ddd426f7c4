//! The library of textures: images waiting to be uploaded, each with the
//! slot it will take in the shaders' texture array, and the textures that
//! live on the GPU, by slot.
use vstd::prelude::*;
use std::collections::{BTreeMap, HashMap};
use crate::key_order::sorted_slots;

verus! {

broadcast use {vstd::std_specs::btree::group_btree_axioms, vstd::std_specs::hash::group_hash_axioms};

#[verifier::external_type_specification]
#[verifier::external_body]
pub struct ExImageError(image::ImageError);

/// An 8-bit RGBA image held in memory: four bytes per pixel, row after row.
pub struct TextureImage {
    pub width: u32,
    pub height: u32,
    pub pixels: Vec<u8>,
}

impl View for TextureImage {
    type V = (u32, u32, Seq<u8>);

    open spec fn view(&self) -> (u32, u32, Seq<u8>) {
        (self.width, self.height, self.pixels@)
    }
}

impl TextureImage {
    /// A single opaque white pixel.
    pub fn white_pixel() -> (r: TextureImage)
        ensures
            r.width == 1,
            r.height == 1,
            r.pixels@ == seq![255u8, 255u8, 255u8, 255u8],
    {
        let pixels = vec![255u8, 255u8, 255u8, 255u8];
        TextureImage { width: 1, height: 1, pixels }
    }
}

/// Calls `image::load_from_memory` and converts the decoded image to 8-bit
/// RGBA with `DynamicImage::to_rgba8`, taking its dimensions and raw bytes.
/// Claimed: a decoded image holds at least four bytes per pixel. Whether the
/// bytes decode, and into what, is left unsaid: it also depends on the
/// decoding hooks registered in the process.
#[verifier::external_body]
fn decode_rgba8(bytes: &[u8]) -> (r: Result<TextureImage, image::ImageError>)
    ensures
        r matches Ok(img) ==> img.pixels@.len() >= 4 * img.width * img.height,
{
    match image::load_from_memory(bytes) {
        Ok(decoded) => {
            let rgba = decoded.to_rgba8();
            let (width, height) = rgba.dimensions();
            Ok(TextureImage { width, height, pixels: rgba.into_raw() })
        },
        Err(e) => Err(e),
    }
}

/// Errors of the texture library.
#[derive(Debug, Clone, Copy, PartialEq, Eq, Structural)]
pub enum TextureError {
    /// The bytes are not an image that the image decoder recognizes.
    InvalidImage,
}

/// The textures of the engine. `T` is a texture living on the GPU.
pub struct TextureLibrary<T> {
    /// The texture hash id, mapped to the texture raw bytes and it's index in the texture buffer.
    loading_queue: HashMap<u64, (TextureImage, u32)>,
    /// The texture index, mapped to the texture id and object.
    textures: BTreeMap<u32, (u64, T)>,
    next_texture_index: u32,
}

impl<T> TextureLibrary<T> {
    /// The queued images by texture id, with the slot each will take.
    pub closed spec fn queued(&self) -> Map<u64, ((u32, u32, Seq<u8>), u32)> {
        Map::new(
            |k: u64| self.loading_queue@.contains_key(k),
            |k: u64| (self.loading_queue@[k].0@, self.loading_queue@[k].1),
        )
    }

    /// The loaded textures by slot: their texture id and the GPU texture.
    pub closed spec fn loaded(&self) -> Map<u32, (u64, T)> {
        self.textures@
    }

    /// The slot the next registered texture gets.
    pub closed spec fn next_index(&self) -> u32 {
        self.next_texture_index
    }

    /// The next slot comes after every slot handed out; slot 0 is taken by
    /// the white texture.
    pub closed spec fn wf(&self) -> bool {
        &&& self.next_texture_index >= 1
        &&& forall|k: u64| #[trigger]
            self.loading_queue@.contains_key(k) ==> self.loading_queue@[k].1
                < self.next_texture_index
        &&& forall|i: u32| #[trigger] self.textures@.contains_key(i) ==> i < self.next_texture_index
    }

    /// A library holding only the white texture, queued under `white_id` in
    /// slot 0.
    pub fn new(white_id: u64) -> (r: Self)
        ensures
            r.wf(),
            r.queued() == Map::<u64, ((u32, u32, Seq<u8>), u32)>::empty().insert(
                white_id,
                ((1u32, 1u32, seq![255u8, 255u8, 255u8, 255u8]), 0u32),
            ),
            r.loaded() == Map::<u32, (u64, T)>::empty(),
            r.next_index() == 1,
    {
        let mut loading_queue = HashMap::new();
        loading_queue.insert(white_id, (TextureImage::white_pixel(), 0));
        let r = TextureLibrary {
            loading_queue,
            textures: BTreeMap::new(),
            next_texture_index: 1,  // 0 is for the white texture
        };
        proof {
            assert(r.queued() =~= Map::<u64, ((u32, u32, Seq<u8>), u32)>::empty().insert(
                white_id,
                ((1u32, 1u32, seq![255u8, 255u8, 255u8, 255u8]), 0u32),
            ));
        }
        r
    }

    /// Register a texture to be queued for loading.
    /// The texture will be loaded in memory the next time the renderer update.
    /// This operation fails if the bytes are not a valid image; the slot is
    /// used up either way.
    /// This returns the texture index, so it can then be used by a material to reference it.
    pub fn register_texture(&mut self, texture_id: u64, bytes: &[u8]) -> (r: Result<u32, TextureError>)
        requires
            old(self).wf(),
            old(self).next_index() < u32::MAX,
        ensures
            final(self).wf(),
            final(self).next_index() == old(self).next_index() + 1,
            final(self).loaded() == old(self).loaded(),
            r matches Ok(i) ==> {
                &&& i == old(self).next_index()
                &&& final(self).queued().contains_key(texture_id)
                &&& final(self).queued()[texture_id].1 == i
                &&& final(self).queued() == old(self).queued().insert(
                    texture_id,
                    final(self).queued()[texture_id],
                )
                &&& final(self).queued()[texture_id].0.2.len() >= 4 * final(self).queued()[texture_id].0.0
                    * final(self).queued()[texture_id].0.1
            },
            r is Err ==> r == Err::<u32, TextureError>(TextureError::InvalidImage)
                && final(self).queued() == old(self).queued(),
    {
        let decoded = match decode_rgba8(bytes) {
            Ok(image) => Ok(image),
            Err(_) => Err(TextureError::InvalidImage),
        };
        self.queue_decoded(texture_id, decoded)
    }

    /// What registering a texture does with the outcome of decoding its
    /// bytes: the next slot is used up; a decoded image is queued under
    /// `texture_id` in that slot, which is returned; an error is returned with
    /// the queue unchanged.
    pub fn queue_decoded(&mut self, texture_id: u64, decoded: Result<TextureImage, TextureError>) -> (r:
        Result<u32, TextureError>)
        requires
            old(self).wf(),
            old(self).next_index() < u32::MAX,
        ensures
            final(self).wf(),
            final(self).next_index() == old(self).next_index() + 1,
            final(self).loaded() == old(self).loaded(),
            decoded matches Ok(image) ==> r == Ok::<u32, TextureError>(old(self).next_index())
                && final(self).queued() == old(self).queued().insert(
                texture_id,
                (image@, old(self).next_index()),
            ),
            decoded matches Err(e) ==> r == Err::<u32, TextureError>(e) && final(self).queued()
                == old(self).queued(),
    {
        let index = self.next_texture_index;
        self.next_texture_index = self.next_texture_index + 1;
        match decoded {
            Ok(image) => {
                let ghost img = image@;
                self.loading_queue.insert(texture_id, (image, index));
                proof {
                    assert(self.queued() =~= old(self).queued().insert(texture_id, (img, index)));
                }
                Ok(index)
            },
            Err(e) => {
                proof {
                    assert(self.queued() =~= old(self).queued());
                }
                Err(e)
            },
        }
    }

    /// Register an image already in memory (a font atlas) to be queued for
    /// loading, and return its slot.
    pub fn register_built_texture(&mut self, texture_id: u64, image: TextureImage) -> (r: u32)
        requires
            old(self).wf(),
            old(self).next_index() < u32::MAX,
        ensures
            final(self).wf(),
            r == old(self).next_index(),
            final(self).next_index() == old(self).next_index() + 1,
            final(self).loaded() == old(self).loaded(),
            final(self).queued() == old(self).queued().insert(texture_id, (image@, r)),
    {
        let index = self.next_texture_index;
        self.next_texture_index = self.next_texture_index + 1;
        let ghost img = image@;
        self.loading_queue.insert(texture_id, (image, index));
        proof {
            assert(self.queued() =~= old(self).queued().insert(texture_id, (img, index)));
        }
        index
    }

    /// Empty the loading queue, handing out each queued image once with its
    /// texture id and slot, so that it can be uploaded and given back with
    /// `insert_loaded`.
    pub fn take_loading_queue(&mut self) -> (queued: Vec<(u64, (TextureImage, u32))>)
        requires
            old(self).wf(),
        ensures
            final(self).wf(),
            final(self).queued() == Map::<u64, ((u32, u32, Seq<u8>), u32)>::empty(),
            final(self).loaded() == old(self).loaded(),
            final(self).next_index() == old(self).next_index(),
            queued@.len() == old(self).queued().len(),
            queued@.map_values(|e: (u64, (TextureImage, u32))| e.0).to_set() == old(self).queued().dom(),
            queued@.map_values(|e: (u64, (TextureImage, u32))| e.0).no_duplicates(),
            forall|i: int|
                0 <= i < queued@.len() ==> old(self).queued()[#[trigger] queued@[i].0] == (
                    queued@[i].1.0@,
                    queued@[i].1.1,
                ),
    {
        proof {
            assert(old(self).queued().dom() =~= self.loading_queue@.dom());
        }
        let queued = crate::mesh_library::drain_map(&mut self.loading_queue);
        proof {
            assert(self.queued() =~= Map::<u64, ((u32, u32, Seq<u8>), u32)>::empty());
            assert forall|i: int| 0 <= i < queued@.len() implies old(self).queued()[#[trigger] queued@[i].0] == (
                    queued@[i].1.0@,
                    queued@[i].1.1,
                ) by {
                assert(queued@.map_values(|e: (u64, (TextureImage, u32))| e.0)[i] == queued@[i].0);
                assert(old(self).queued().dom().contains(queued@[i].0));
            }
        }
        queued
    }

    /// The largest slot handed out.
    pub fn max_index(&self) -> (r: u32)
        requires
            self.wf(),
        ensures
            r == self.next_index() - 1,
    {
        self.next_texture_index - 1
    }

    /// Record a texture that now lives on the GPU in slot `index`.
    pub fn insert_loaded(&mut self, index: u32, texture_id: u64, texture: T)
        requires
            old(self).wf(),
            index < old(self).next_index(),
        ensures
            final(self).wf(),
            final(self).loaded() == old(self).loaded().insert(index, (texture_id, texture)),
            final(self).queued() == old(self).queued(),
            final(self).next_index() == old(self).next_index(),
    {
        self.textures.insert(index, (texture_id, texture));
    }

    /// The loaded textures with their slot, smallest slot first.
    pub fn textures(&self) -> (r: Vec<(u32, &T)>)
        ensures
            r@.len() == self.loaded().len(),
            forall|i: int| 0 <= i < r@.len() ==> {
                let slot = #[trigger] r@[i].0;
                &&& self.loaded().contains_key(slot)
                &&& *r@[i].1 == self.loaded()[slot].1
            },
            forall|i: int, j: int| 0 <= i < j < r@.len() ==> r@[i].0 < r@[j].0,
            forall|slot: u32| self.loaded().contains_key(slot) ==> exists|i: int| 0 <= i < r@.len() && #[trigger] r@[i].0 == slot,
    {
        let keys = sorted_slots(&self.textures);
        let mut out: Vec<(u32, &T)> = Vec::new();
        let mut j: usize = 0;
        while j < keys.len()
            invariant
                0 <= j <= keys@.len(),
                keys@.to_set() == self.textures@.dom(),
                keys@.len() == self.textures@.dom().len(),
                forall|a: int, b: int| 0 <= a < b < keys@.len() ==> keys@[a] < keys@[b],
                out@.len() == j,
                forall|i: int| 0 <= i < j ==> #[trigger] out@[i].0 == keys@[i],
                forall|i: int| 0 <= i < j ==> *out@[i].1 == self.textures@[#[trigger] keys@[i]].1,
            decreases keys@.len() - j,
        {
            let k = keys[j];
            proof {
                assert(keys@.to_set().contains(k));
            }
            match self.textures.get(&k) {
                Some(entry) => {
                    out.push((k, &entry.1));
                },
                None => {},
            }
            j = j + 1;
        }
        proof {
            assert forall|slot: u32| self.loaded().contains_key(slot) implies exists|i: int| 0 <= i < out@.len() && #[trigger] out@[i].0 == slot by {
                assert(keys@.to_set().contains(slot));
                let i = choose|i: int| 0 <= i < keys@.len() && keys@[i] == slot;
                assert(out@[i].0 == slot);
            }
        }
        out
    }
}

/// Every slot handed out lies below the next one, and slot 0, the white
/// texture's, is never handed out by a registration.
pub proof fn lemma_slots_below_next<T>(lib: TextureLibrary<T>)
    requires
        lib.wf(),
    ensures
        lib.next_index() >= 1,
        forall|k: u64| #[trigger] lib.queued().contains_key(k) ==> lib.queued()[k].1 < lib.next_index(),
        forall|i: u32| #[trigger] lib.loaded().contains_key(i) ==> i < lib.next_index(),
{
}

} // verus!
