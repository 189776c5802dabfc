//! The verified face of the sprite catalog: the names under which the
//! asset provider's sprites are known, in load order.  The textures and
//! rectangles themselves live with the host; this core only resolves
//! handles to names for tooling and hands out fresh handles while
//! assets load.
use vstd::prelude::*;

verus! {

/// The sprite name table; slot `i` names the sprite with handle `i`.
pub struct SpriteCatalog {
    names: Vec<String>,
}

impl View for SpriteCatalog {
    type V = Seq<Seq<char>>;

    closed spec fn view(&self) -> Seq<Seq<char>> {
        self.names@.map_values(|n: String| n@)
    }
}

impl SpriteCatalog {
    /// An empty catalog.
    pub fn new() -> (c: SpriteCatalog)
        ensures
            c@ == Seq::<Seq<char>>::empty(),
    {
        let c = SpriteCatalog { names: Vec::new() };
        proof {
            assert(c@ =~= Seq::<Seq<char>>::empty());
        }
        c
    }

    /// How many sprites are known.
    pub fn sprite_count(&self) -> (n: usize)
        ensures
            n == self@.len(),
    {
        self.names.len()
    }

    /// Record one more sprite under `name`, handing out its handle: the
    /// next free slot.
    pub fn add_sprite(&mut self, name: String) -> (id: usize)
        ensures
            id == old(self)@.len(),
            final(self)@ == old(self)@.push(name@),
    {
        let id = self.names.len();
        self.names.push(name);
        proof {
            assert(self@ =~= old(self)@.push(self.names@.last()@));
        }
        id
    }

    /// The display name behind a handle, if the handle is in range.
    pub fn name_of(&self, id: usize) -> (r: Option<&String>)
        ensures
            match r {
                Some(n) => id < self@.len() && n@ == self@[id as int],
                None => id >= self@.len(),
            },
    {
        if id < self.names.len() {
            Some(&self.names[id])
        } else {
            None
        }
    }
}

} // verus!
