//! The image store: the encoded bytes and pixel size of every image,
//! by element id.
use std::collections::HashMap;
use vstd::prelude::*;

verus! {

broadcast use vstd::std_specs::hash::group_hash_axioms;

/// The bytes of every stored image, without their sizes.
pub open spec fn image_bytes(store: Map<u64, (Seq<u8>, (u32, u32))>) -> Map<u64, Seq<u8>> {
    Map::new(|id: u64| store.contains_key(id), |id: u64| store[id].0)
}

pub struct ImageEntry {
    /// The encoded image file (usually PNG).
    pub png: Vec<u8>,
    /// Pixel size (width, height).
    pub dim: (u32, u32),
}

impl ImageEntry {
    pub open spec fn value(self) -> (Seq<u8>, (u32, u32)) {
        (self.png@, self.dim)
    }

    /// A copy of the entry.
    pub fn duplicate(&self) -> (r: ImageEntry)
        ensures
            r.value() == self.value(),
    {
        ImageEntry { png: vstd::slice::slice_to_vec(self.png.as_slice()), dim: self.dim }
    }
}

pub struct ImageStore {
    pub map: HashMap<u64, ImageEntry>,
}

impl View for ImageStore {
    type V = Map<u64, (Seq<u8>, (u32, u32))>;

    open spec fn view(&self) -> Map<u64, (Seq<u8>, (u32, u32))> {
        self.map@.map_values(|e: ImageEntry| e.value())
    }
}

impl ImageStore {
    pub fn new() -> (s: Self)
        ensures
            s@ == Map::<u64, (Seq<u8>, (u32, u32))>::empty(),
    {
        let s = ImageStore { map: HashMap::new() };
        assert(s@ =~= Map::<u64, (Seq<u8>, (u32, u32))>::empty());
        s
    }

    pub fn insert(&mut self, id: u64, png: Vec<u8>, dim: (u32, u32))
        ensures
            final(self)@ == old(self)@.insert(id, (png@, dim)),
    {
        self.map.insert(id, ImageEntry { png, dim });
        assert(self@ =~= old(self)@.insert(id, (png@, dim)));
    }

    pub fn remove(&mut self, id: u64)
        ensures
            final(self)@ == old(self)@.remove(id),
    {
        self.map.remove(&id);
        assert(self@ =~= old(self)@.remove(id));
    }

    /// The entry of an image, copied.
    pub fn get_copy(&self, id: u64) -> (r: Option<ImageEntry>)
        ensures
            self@.contains_key(id) ==> r is Some && r->0.value() == self@[id],
            !self@.contains_key(id) ==> r is None,
    {
        match self.map.get(&id) {
            Some(e) => Some(e.duplicate()),
            None => None,
        }
    }
}

impl Default for ImageStore {
    fn default() -> (s: Self)
        ensures
            s@ == Map::<u64, (Seq<u8>, (u32, u32))>::empty(),
    {
        ImageStore::new()
    }
}

} // verus!
