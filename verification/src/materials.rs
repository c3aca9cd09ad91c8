use std::sync::Arc;
use vstd::prelude::*;

verus! {

/// Owns the textures of a scene, each shared behind an `Arc` and addressed by the
/// index at which it was loaded.
pub struct TextureManager<T> {
    textures: Vec<Arc<T>>,
}

impl<T> View for TextureManager<T> {
    type V = Seq<T>;

    /// The loaded textures, in loading order.
    closed spec fn view(&self) -> Seq<T> {
        self.textures@.map_values(|t: Arc<T>| *t)
    }
}

impl<T> TextureManager<T> {
    /// A manager that holds no texture.
    pub fn new() -> (m: Self)
        ensures
            m@ == Seq::<T>::empty(),
    {
        let m = TextureManager { textures: Vec::new() };
        assert(m@ =~= Seq::<T>::empty());
        m
    }

    /// Stores `texture` after the textures already loaded and returns its index.
    pub fn load_texture(&mut self, texture: T) -> (index: usize)
        ensures
            final(self)@ == old(self)@.push(texture),
            index == old(self)@.len(),
    {
        let shared = Arc::new(texture);
        self.textures.push(shared);
        proof {
            assert(self@ =~= old(self)@.push(texture));
        }
        self.textures.len() - 1
    }

    /// The texture loaded at `index`.
    pub fn get_texture(&self, index: usize) -> (t: &Arc<T>)
        requires
            index < self@.len(),
        ensures
            **t == self@[index as int],
    {
        &self.textures[index]
    }

    /// Number of textures loaded so far.
    pub fn len(&self) -> (n: usize)
        ensures
            n == self@.len(),
    {
        self.textures.len()
    }
}

/// A texture read back at the index that loading it returned is that texture, and
/// loading leaves the textures loaded before it at their indices.
pub proof fn lemma_load_then_get<T>(
    before: TextureManager<T>,
    after: TextureManager<T>,
    texture: T,
    index: usize,
)
    requires
        after@ == before@.push(texture),
        index == before@.len(),
    ensures
        index < after@.len(),
        after@[index as int] == texture,
        forall|j: int| 0 <= j < before@.len() ==> after@[j] == before@[j],
{
}

} // verus!
