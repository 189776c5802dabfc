//! The component kinds of the schema, written out record by record.
//!
//! Each kind is a named record with an ordered field list, a default value
//! for every field, and a value-copy operation.  Fields that semantically
//! hold a 32-bit float are stored as their IEEE 754 bit pattern
//! ([`F32Bits`]); this core defaults, copies, persists and edits field
//! values, and never does floating-point arithmetic on them.
use vstd::prelude::*;

verus! {

/// The raw bit pattern of an IEEE 754 single-precision value.
#[derive(Clone, Copy, PartialEq, Eq, Structural, Debug)]
pub struct F32Bits(pub u32);

/// Bit pattern of 0.0f32.
pub const BITS_0_0: u32 = 0x0000_0000;

/// Bit pattern of 1.0f32.
pub const BITS_1_0: u32 = 0x3F80_0000;

/// Bit pattern of 10.0f32.
pub const BITS_10_0: u32 = 0x4120_0000;

/// Bit pattern of 50.0f32.
pub const BITS_50_0: u32 = 0x4248_0000;

/// Bit pattern of 128.0f32, the pixels-per-unit scale of the renderer.
pub const PPU_BITS: u32 = 0x4300_0000;

/// An opaque handle referring to a sprite held by the asset provider.
#[derive(Clone, Copy, PartialEq, Eq, Structural, Hash, Debug)]
pub struct SpriteId(pub usize);

impl Default for SpriteId {
    fn default() -> (r: Self)
        ensures
            r == (SpriteId(0)),
    {
        SpriteId(0)
    }
}

/// A world position.
#[derive(Clone, Copy, PartialEq, Eq, Structural, Debug)]
pub struct Pos {
    pub x: F32Bits,
    pub y: F32Bits,
}

impl Pos {
    /// The default value: every field takes the zero pattern.
    pub open spec fn default_spec() -> Pos {
        Pos { x: F32Bits(BITS_0_0), y: F32Bits(BITS_0_0) }
    }
}

impl Default for Pos {
    fn default() -> (r: Self)
        ensures
            r == Pos::default_spec(),
    {
        Pos { x: F32Bits(BITS_0_0), y: F32Bits(BITS_0_0) }
    }
}

/// A velocity with a damping factor.
#[derive(Clone, Copy, PartialEq, Eq, Structural, Debug)]
pub struct Vel {
    pub x: F32Bits,
    pub y: F32Bits,
    pub d: F32Bits,
}

impl Vel {
    /// The default value: zero velocity, damping declared as 10.0.
    pub open spec fn default_spec() -> Vel {
        Vel { x: F32Bits(BITS_0_0), y: F32Bits(BITS_0_0), d: F32Bits(BITS_10_0) }
    }
}

impl Default for Vel {
    fn default() -> (r: Self)
        ensures
            r == Vel::default_spec(),
    {
        Vel { x: F32Bits(BITS_0_0), y: F32Bits(BITS_0_0), d: F32Bits(BITS_10_0) }
    }
}

/// An RGBA tint, one 32-bit float channel each, persisted as a
/// four-element float array.
#[derive(Clone, Copy, PartialEq, Eq, Structural, Debug)]
pub struct ColorRGBA {
    pub r: F32Bits,
    pub g: F32Bits,
    pub b: F32Bits,
    pub a: F32Bits,
}

/// A two-component float vector, persisted as a two-element float array.
#[derive(Clone, Copy, PartialEq, Eq, Structural, Debug)]
pub struct Vec2Bits {
    pub x: F32Bits,
    pub y: F32Bits,
}

/// How an entity is drawn: sprite handle, size, tint, layer and mirroring.
///
/// `cached_sprite` is a derived value (the resolved sprite slot); it is
/// never persisted and is cleared whenever `s_id` is edited.
#[derive(Clone, Copy, PartialEq, Eq, Structural, Debug)]
pub struct Render {
    pub s_id: SpriteId,
    pub w: F32Bits,
    pub h: F32Bits,
    pub color: ColorRGBA,
    pub layer: F32Bits,
    pub flip_x: bool,
    pub flip_y: bool,
    pub cached_sprite: Option<usize>,
}

impl Render {
    /// The default value: sprite 0, one-unit square, white, layer 0.
    pub open spec fn default_spec() -> Render {
        Render {
            s_id: SpriteId(0),
            w: F32Bits(PPU_BITS),
            h: F32Bits(PPU_BITS),
            color: ColorRGBA {
                r: F32Bits(BITS_1_0),
                g: F32Bits(BITS_1_0),
                b: F32Bits(BITS_1_0),
                a: F32Bits(BITS_1_0),
            },
            layer: F32Bits(BITS_0_0),
            flip_x: false,
            flip_y: false,
            cached_sprite: None,
        }
    }

    /// The red channel of the tint.
    pub fn r(&self) -> (c: F32Bits)
        ensures
            c == self.color.r,
    {
        self.color.r
    }

    /// The green channel of the tint.
    pub fn g(&self) -> (c: F32Bits)
        ensures
            c == self.color.g,
    {
        self.color.g
    }

    /// The blue channel of the tint.
    pub fn b(&self) -> (c: F32Bits)
        ensures
            c == self.color.b,
    {
        self.color.b
    }

    /// The alpha channel of the tint.
    pub fn a(&self) -> (c: F32Bits)
        ensures
            c == self.color.a,
    {
        self.color.a
    }

    /// Resolve the cached sprite slot from the handle, if it is not yet
    /// resolved.  `sprite_count` is how many sprites the asset provider
    /// holds; a handle outside that range resolves to nothing.
    pub fn refresh_cache(&mut self, sprite_count: usize)
        ensures
            *final(self) == (Render {
                cached_sprite: if old(self).cached_sprite is Some {
                    old(self).cached_sprite
                } else if old(self).s_id.0 < sprite_count {
                    Some(old(self).s_id.0)
                } else {
                    None
                },
                ..*old(self)
            }),
    {
        if self.cached_sprite.is_none() {
            if self.s_id.0 < sprite_count {
                self.cached_sprite = Some(self.s_id.0);
            }
        }
    }

    /// Drop the cached sprite slot, forcing the next draw to resolve anew.
    pub fn invalidate_cache(&mut self)
        ensures
            *final(self) == (Render { cached_sprite: None, ..*old(self) }),
    {
        self.cached_sprite = None;
    }
}

impl Default for Render {
    fn default() -> (r: Self)
        ensures
            r == Render::default_spec(),
    {
        Render {
            s_id: SpriteId(0),
            w: F32Bits(PPU_BITS),
            h: F32Bits(PPU_BITS),
            color: ColorRGBA {
                r: F32Bits(BITS_1_0),
                g: F32Bits(BITS_1_0),
                b: F32Bits(BITS_1_0),
                a: F32Bits(BITS_1_0),
            },
            layer: F32Bits(BITS_0_0),
            flip_x: false,
            flip_y: false,
            cached_sprite: None,
        }
    }
}

/// Marks the entity the camera follows, with zoom and smoothing.
#[derive(Clone, Copy, PartialEq, Eq, Structural, Debug)]
pub struct CameraAnchor {
    pub zoom: F32Bits,
    pub smoothness: F32Bits,
}

impl CameraAnchor {
    /// The default value: zoom and smoothness declared as 1.0.
    pub open spec fn default_spec() -> CameraAnchor {
        CameraAnchor { zoom: F32Bits(BITS_1_0), smoothness: F32Bits(BITS_1_0) }
    }
}

impl Default for CameraAnchor {
    fn default() -> (r: Self)
        ensures
            r == CameraAnchor::default_spec(),
    {
        CameraAnchor { zoom: F32Bits(BITS_1_0), smoothness: F32Bits(BITS_1_0) }
    }
}

/// Marks the player-controlled entity.
#[derive(Clone, Copy, PartialEq, Eq, Structural, Debug)]
pub struct Player {
    pub speed: F32Bits,
}

impl Player {
    /// The default value: speed declared as 50.0.
    pub open spec fn default_spec() -> Player {
        Player { speed: F32Bits(BITS_50_0) }
    }
}

impl Default for Player {
    fn default() -> (r: Self)
        ensures
            r == Player::default_spec(),
    {
        Player { speed: F32Bits(BITS_50_0) }
    }
}

/// An axis-aligned collision box.
#[derive(Clone, Copy, PartialEq, Eq, Structural, Debug)]
pub struct Collider {
    pub w: F32Bits,
    pub h: F32Bits,
    pub is_static: bool,
}

impl Collider {
    /// The default value: a one-unit static box.
    pub open spec fn default_spec() -> Collider {
        Collider { w: F32Bits(PPU_BITS), h: F32Bits(PPU_BITS), is_static: true }
    }
}

impl Default for Collider {
    fn default() -> (r: Self)
        ensures
            r == Collider::default_spec(),
    {
        Collider { w: F32Bits(PPU_BITS), h: F32Bits(PPU_BITS), is_static: true }
    }
}

/// A rectangular grid of tiles, each holding a sprite slot (0 = empty).
#[derive(Clone, Debug)]
pub struct TileMap {
    pub width: usize,
    pub height: usize,
    pub tile_size: F32Bits,
    pub brush_sprite: SpriteId,
    pub tiles: Vec<u32>,
}

/// The mathematical value of a [`TileMap`]: the same record with the tile
/// grid as a sequence.
#[verifier::ext_equal]
pub ghost struct TileMapV {
    pub width: usize,
    pub height: usize,
    pub tile_size: F32Bits,
    pub brush_sprite: SpriteId,
    pub tiles: Seq<u32>,
}

impl View for TileMap {
    type V = TileMapV;

    open spec fn view(&self) -> TileMapV {
        TileMapV {
            width: self.width,
            height: self.height,
            tile_size: self.tile_size,
            brush_sprite: self.brush_sprite,
            tiles: self.tiles@,
        }
    }
}

impl TileMap {
    /// The tile grid holds exactly one slot per cell.
    pub open spec fn wf(self) -> bool {
        self.tiles@.len() == self.width * self.height
    }

    /// The default value: a 100 by 100 grid of empty tiles.
    pub open spec fn default_spec() -> TileMapV {
        TileMapV {
            width: 100,
            height: 100,
            tile_size: F32Bits(PPU_BITS),
            brush_sprite: SpriteId(0),
            tiles: Seq::new(10000, |i: int| 0u32),
        }
    }

    /// Check the grid invariant at run time, for values that arrive
    /// from outside the library.
    pub fn check_wf(&self) -> (r: bool)
        ensures
            r == self.wf(),
    {
        proof {
            assert((self.width as int) * (self.height as int) < 0x100000000000000000000000000000000)
                by (nonlinear_arith)
                requires
                    self.width < 0x10000000000000000 && self.height < 0x10000000000000000,
            ;
        }
        (self.tiles.len() as u128) == (self.width as u128) * (self.height as u128)
    }

    /// Write `value` into the cell at `(grid_x, grid_y)` if that cell lies
    /// on the grid; report whether it did.
    pub fn paint(&mut self, grid_x: i64, grid_y: i64, value: u32) -> (hit: bool)
        requires
            old(self).wf(),
        ensures
            final(self).wf(),
            hit == (0 <= grid_x < old(self).width && 0 <= grid_y < old(self).height),
            hit ==> final(self)@ == (TileMapV {
                tiles: old(self)@.tiles.update(grid_y * old(self).width + grid_x, value),
                ..old(self)@
            }),
            !hit ==> *final(self) == *old(self),
    {
        if grid_x >= 0 && grid_y >= 0 && (grid_x as u64) < (self.width as u64) && (grid_y as u64)
            < (self.height as u64) {
            let total: usize = self.tiles.len();
            proof {
                lemma_grid_index(grid_x as int, grid_y as int, self.width as int, self.height as int);
                assert((grid_y as int) * (self.width as int) + (grid_x as int) < total as int);
            }
            let idx: usize = (grid_y as usize) * self.width + (grid_x as usize);
            self.tiles[idx] = value;
            true
        } else {
            false
        }
    }

    /// The sprite slot stored at `(grid_x, grid_y)`, or `None` off the grid.
    pub fn tile_at(&self, grid_x: i64, grid_y: i64) -> (r: Option<u32>)
        requires
            self.wf(),
        ensures
            r == if 0 <= grid_x < self.width && 0 <= grid_y < self.height {
                Some(self.tiles@[grid_y * self.width + grid_x])
            } else {
                None::<u32>
            },
    {
        if grid_x >= 0 && grid_y >= 0 && (grid_x as u64) < (self.width as u64) && (grid_y as u64)
            < (self.height as u64) {
            let total: usize = self.tiles.len();
            proof {
                lemma_grid_index(grid_x as int, grid_y as int, self.width as int, self.height as int);
                assert((grid_y as int) * (self.width as int) + (grid_x as int) < total as int);
            }
            let idx: usize = (grid_y as usize) * self.width + (grid_x as usize);
            Some(self.tiles[idx])
        } else {
            None
        }
    }
}

/// A cell inside the grid has its slot index inside the tile sequence.
proof fn lemma_grid_index(gx: int, gy: int, w: int, h: int)
    by (nonlinear_arith)
    requires
        0 <= gx < w,
        0 <= gy < h,
    ensures
        0 <= gy * w + gx < w * h,
{
}

impl PartialEq for TileMap {
    fn eq(&self, other: &Self) -> (r: bool)
        ensures
            r == (self@ =~= other@),
    {
        self.width == other.width && self.height == other.height && self.tile_size
            == other.tile_size && self.brush_sprite == other.brush_sprite && self.tiles
            == other.tiles
    }
}

impl vstd::std_specs::cmp::PartialEqSpecImpl for TileMap {
    open spec fn obeys_eq_spec() -> bool {
        true
    }

    open spec fn eq_spec(&self, other: &Self) -> bool {
        self@ =~= other@
    }
}

impl Default for TileMap {
    fn default() -> (r: Self)
        ensures
            r@ == TileMap::default_spec(),
            r.wf(),
    {
        let tiles: Vec<u32> = vec![0u32; 10000];
        proof {
            assert(tiles@ =~= Seq::new(10000, |i: int| 0u32));
        }
        TileMap {
            width: 100,
            height: 100,
            tile_size: F32Bits(PPU_BITS),
            brush_sprite: SpriteId(0),
            tiles,
        }
    }
}

} // verus!
