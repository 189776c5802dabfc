//! The type-erased field access facade.
//!
//! For any component value of any registered kind, the facade lists the
//! kind's fields in declaration order and reads or writes any field
//! through a closed set of value shapes.  Shape assignment follows a
//! fixed trial order, identical for every kind, from narrow numbers
//! through strings and arrays to booleans and the sprite handle (the
//! order of [`FieldShape`]'s variants); each field matches exactly one
//! shape, or none, in which case it is not editable.  Editing the render
//! kind's sprite handle also clears its cached sprite slot: that one
//! cross-field coupling is part of the contract.
use vstd::prelude::*;

use crate::components::CameraAnchor;
use crate::components::Collider;
use crate::components::ColorRGBA;
use crate::components::F32Bits;
use crate::components::Player;
use crate::components::Pos;
use crate::components::Render;
use crate::components::SpriteId;
use crate::components::TileMap;
use crate::components::Vec2Bits;
use crate::components::Vel;
use crate::registry::ComponentValue;
use crate::registry::KindId;

verus! {

/// The closed set of field value shapes, in the facade's trial order.
#[derive(Clone, Copy, PartialEq, Eq, Structural, Debug)]
pub enum FieldShape {
    F32,
    F64,
    I32,
    U32,
    USize,
    I64,
    U64,
    Str,
    Color4,
    Vec2,
    Bool,
    Sprite,
}

/// A field value carried out of or into a component, tagged with its
/// shape.
#[derive(Clone, PartialEq, Debug)]
pub enum FieldValue {
    F32(F32Bits),
    F64(u64),
    I32(i32),
    U32(u32),
    USize(usize),
    I64(i64),
    U64(u64),
    Str(String),
    Color4(ColorRGBA),
    Vec2(Vec2Bits),
    Bool(bool),
    Sprite(SpriteId),
}

/// How many fields a kind declares.
pub open spec fn field_count_spec(k: KindId) -> int {
    match k {
        KindId::Pos => 2,
        KindId::Vel => 3,
        KindId::Render => 8,
        KindId::CameraAnchor => 2,
        KindId::Player => 1,
        KindId::Collider => 3,
        KindId::TileMap => 5,
    }
}

/// The name of field `i` of kind `k`.
pub open spec fn field_name_spec(k: KindId, i: int) -> Seq<char> {
    match k {
        KindId::Pos => {
            if i == 0 {
                "x"@
            } else if i == 1 {
                "y"@
            } else {
                Seq::empty()
            }
        },
        KindId::Vel => {
            if i == 0 {
                "x"@
            } else if i == 1 {
                "y"@
            } else if i == 2 {
                "d"@
            } else {
                Seq::empty()
            }
        },
        KindId::Render => {
            if i == 0 {
                "s_id"@
            } else if i == 1 {
                "w"@
            } else if i == 2 {
                "h"@
            } else if i == 3 {
                "color"@
            } else if i == 4 {
                "layer"@
            } else if i == 5 {
                "flip_x"@
            } else if i == 6 {
                "flip_y"@
            } else if i == 7 {
                "cached_sprite"@
            } else {
                Seq::empty()
            }
        },
        KindId::CameraAnchor => {
            if i == 0 {
                "zoom"@
            } else if i == 1 {
                "smoothness"@
            } else {
                Seq::empty()
            }
        },
        KindId::Player => {
            if i == 0 {
                "speed"@
            } else {
                Seq::empty()
            }
        },
        KindId::Collider => {
            if i == 0 {
                "w"@
            } else if i == 1 {
                "h"@
            } else if i == 2 {
                "is_static"@
            } else {
                Seq::empty()
            }
        },
        KindId::TileMap => {
            if i == 0 {
                "width"@
            } else if i == 1 {
                "height"@
            } else if i == 2 {
                "tile_size"@
            } else if i == 3 {
                "brush_sprite"@
            } else if i == 4 {
                "tiles"@
            } else {
                Seq::empty()
            }
        },
    }
}

/// The shape of field `i` of kind `k`; `None` for a field outside the
/// probe set (the tile grid, the cached sprite slot) or out of range.
pub open spec fn field_shape_spec(k: KindId, i: int) -> Option<FieldShape> {
    match k {
        KindId::Pos => {
            if i == 0 {
                Some(FieldShape::F32)
            } else if i == 1 {
                Some(FieldShape::F32)
            } else {
                None
            }
        },
        KindId::Vel => {
            if i == 0 {
                Some(FieldShape::F32)
            } else if i == 1 {
                Some(FieldShape::F32)
            } else if i == 2 {
                Some(FieldShape::F32)
            } else {
                None
            }
        },
        KindId::Render => {
            if i == 0 {
                Some(FieldShape::Sprite)
            } else if i == 1 {
                Some(FieldShape::F32)
            } else if i == 2 {
                Some(FieldShape::F32)
            } else if i == 3 {
                Some(FieldShape::Color4)
            } else if i == 4 {
                Some(FieldShape::F32)
            } else if i == 5 {
                Some(FieldShape::Bool)
            } else if i == 6 {
                Some(FieldShape::Bool)
            } else if i == 7 {
                None
            } else {
                None
            }
        },
        KindId::CameraAnchor => {
            if i == 0 {
                Some(FieldShape::F32)
            } else if i == 1 {
                Some(FieldShape::F32)
            } else {
                None
            }
        },
        KindId::Player => {
            if i == 0 {
                Some(FieldShape::F32)
            } else {
                None
            }
        },
        KindId::Collider => {
            if i == 0 {
                Some(FieldShape::F32)
            } else if i == 1 {
                Some(FieldShape::F32)
            } else if i == 2 {
                Some(FieldShape::Bool)
            } else {
                None
            }
        },
        KindId::TileMap => {
            if i == 0 {
                Some(FieldShape::USize)
            } else if i == 1 {
                Some(FieldShape::USize)
            } else if i == 2 {
                Some(FieldShape::F32)
            } else if i == 3 {
                Some(FieldShape::Sprite)
            } else if i == 4 {
                None
            } else {
                None
            }
        },
    }
}

/// The value of field `i` of `c`, if it has a probeable shape.
pub open spec fn get_field_spec(c: ComponentValue, i: int) -> Option<FieldValue> {
    match c {
        ComponentValue::Pos(v) => {
            if i == 0 {
                Some(FieldValue::F32(v.x))
            } else if i == 1 {
                Some(FieldValue::F32(v.y))
            } else {
                None
            }
        },
        ComponentValue::Vel(v) => {
            if i == 0 {
                Some(FieldValue::F32(v.x))
            } else if i == 1 {
                Some(FieldValue::F32(v.y))
            } else if i == 2 {
                Some(FieldValue::F32(v.d))
            } else {
                None
            }
        },
        ComponentValue::Render(v) => {
            if i == 0 {
                Some(FieldValue::Sprite(v.s_id))
            } else if i == 1 {
                Some(FieldValue::F32(v.w))
            } else if i == 2 {
                Some(FieldValue::F32(v.h))
            } else if i == 3 {
                Some(FieldValue::Color4(v.color))
            } else if i == 4 {
                Some(FieldValue::F32(v.layer))
            } else if i == 5 {
                Some(FieldValue::Bool(v.flip_x))
            } else if i == 6 {
                Some(FieldValue::Bool(v.flip_y))
            } else if i == 7 {
                None
            } else {
                None
            }
        },
        ComponentValue::CameraAnchor(v) => {
            if i == 0 {
                Some(FieldValue::F32(v.zoom))
            } else if i == 1 {
                Some(FieldValue::F32(v.smoothness))
            } else {
                None
            }
        },
        ComponentValue::Player(v) => {
            if i == 0 {
                Some(FieldValue::F32(v.speed))
            } else {
                None
            }
        },
        ComponentValue::Collider(v) => {
            if i == 0 {
                Some(FieldValue::F32(v.w))
            } else if i == 1 {
                Some(FieldValue::F32(v.h))
            } else if i == 2 {
                Some(FieldValue::Bool(v.is_static))
            } else {
                None
            }
        },
        ComponentValue::TileMap(v) => {
            if i == 0 {
                Some(FieldValue::USize(v.width))
            } else if i == 1 {
                Some(FieldValue::USize(v.height))
            } else if i == 2 {
                Some(FieldValue::F32(v.tile_size))
            } else if i == 3 {
                Some(FieldValue::Sprite(v.brush_sprite))
            } else if i == 4 {
                None
            } else {
                None
            }
        },
    }
}

/// `c` with field `i` set to `nv`, if `i` names a field of `c`'s kind
/// and `nv` has that field's shape; setting the render sprite handle
/// also clears the cached sprite slot.
pub open spec fn set_field_spec(c: ComponentValue, i: int, nv: FieldValue) -> Option<
    ComponentValue,
> {
    match c {
        ComponentValue::Pos(v) => {
            if i == 0 {
                match nv {
                    FieldValue::F32(b) => Some(ComponentValue::Pos(Pos { x: b, ..v })),
                    _ => None,
                }
            } else if i == 1 {
                match nv {
                    FieldValue::F32(b) => Some(ComponentValue::Pos(Pos { y: b, ..v })),
                    _ => None,
                }
            } else {
                None
            }
        },
        ComponentValue::Vel(v) => {
            if i == 0 {
                match nv {
                    FieldValue::F32(b) => Some(ComponentValue::Vel(Vel { x: b, ..v })),
                    _ => None,
                }
            } else if i == 1 {
                match nv {
                    FieldValue::F32(b) => Some(ComponentValue::Vel(Vel { y: b, ..v })),
                    _ => None,
                }
            } else if i == 2 {
                match nv {
                    FieldValue::F32(b) => Some(ComponentValue::Vel(Vel { d: b, ..v })),
                    _ => None,
                }
            } else {
                None
            }
        },
        ComponentValue::Render(v) => {
            if i == 0 {
                match nv {
                    FieldValue::Sprite(b) => Some(ComponentValue::Render(Render { s_id: b, cached_sprite: None, ..v })),
                    _ => None,
                }
            } else if i == 1 {
                match nv {
                    FieldValue::F32(b) => Some(ComponentValue::Render(Render { w: b, ..v })),
                    _ => None,
                }
            } else if i == 2 {
                match nv {
                    FieldValue::F32(b) => Some(ComponentValue::Render(Render { h: b, ..v })),
                    _ => None,
                }
            } else if i == 3 {
                match nv {
                    FieldValue::Color4(b) => Some(ComponentValue::Render(Render { color: b, ..v })),
                    _ => None,
                }
            } else if i == 4 {
                match nv {
                    FieldValue::F32(b) => Some(ComponentValue::Render(Render { layer: b, ..v })),
                    _ => None,
                }
            } else if i == 5 {
                match nv {
                    FieldValue::Bool(b) => Some(ComponentValue::Render(Render { flip_x: b, ..v })),
                    _ => None,
                }
            } else if i == 6 {
                match nv {
                    FieldValue::Bool(b) => Some(ComponentValue::Render(Render { flip_y: b, ..v })),
                    _ => None,
                }
            } else if i == 7 {
                None
            } else {
                None
            }
        },
        ComponentValue::CameraAnchor(v) => {
            if i == 0 {
                match nv {
                    FieldValue::F32(b) => Some(ComponentValue::CameraAnchor(CameraAnchor { zoom: b, ..v })),
                    _ => None,
                }
            } else if i == 1 {
                match nv {
                    FieldValue::F32(b) => Some(ComponentValue::CameraAnchor(CameraAnchor { smoothness: b, ..v })),
                    _ => None,
                }
            } else {
                None
            }
        },
        ComponentValue::Player(v) => {
            if i == 0 {
                match nv {
                    FieldValue::F32(b) => Some(ComponentValue::Player(Player { speed: b, ..v })),
                    _ => None,
                }
            } else {
                None
            }
        },
        ComponentValue::Collider(v) => {
            if i == 0 {
                match nv {
                    FieldValue::F32(b) => Some(ComponentValue::Collider(Collider { w: b, ..v })),
                    _ => None,
                }
            } else if i == 1 {
                match nv {
                    FieldValue::F32(b) => Some(ComponentValue::Collider(Collider { h: b, ..v })),
                    _ => None,
                }
            } else if i == 2 {
                match nv {
                    FieldValue::Bool(b) => Some(ComponentValue::Collider(Collider { is_static: b, ..v })),
                    _ => None,
                }
            } else {
                None
            }
        },
        ComponentValue::TileMap(v) => {
            if i == 0 {
                match nv {
                    FieldValue::USize(b) => Some(ComponentValue::TileMap(TileMap { width: b, ..v })),
                    _ => None,
                }
            } else if i == 1 {
                match nv {
                    FieldValue::USize(b) => Some(ComponentValue::TileMap(TileMap { height: b, ..v })),
                    _ => None,
                }
            } else if i == 2 {
                match nv {
                    FieldValue::F32(b) => Some(ComponentValue::TileMap(TileMap { tile_size: b, ..v })),
                    _ => None,
                }
            } else if i == 3 {
                match nv {
                    FieldValue::Sprite(b) => Some(ComponentValue::TileMap(TileMap { brush_sprite: b, ..v })),
                    _ => None,
                }
            } else if i == 4 {
                None
            } else {
                None
            }
        },
    }
}

/// How many fields a kind declares.
pub fn field_count(k: KindId) -> (n: usize)
    ensures
        n == field_count_spec(k),
{
    match k {
        KindId::Pos => 2,
        KindId::Vel => 3,
        KindId::Render => 8,
        KindId::CameraAnchor => 2,
        KindId::Player => 1,
        KindId::Collider => 3,
        KindId::TileMap => 5,
    }
}

/// The name of field `i` of kind `k`, for inspectors.
pub fn field_name(k: KindId, i: usize) -> (r: Option<String>)
    ensures
        match r {
            Some(s) => i < field_count_spec(k) && s@ == field_name_spec(k, i as int),
            None => i >= field_count_spec(k),
        },
{
    match k {
        KindId::Pos => {
            if i == 0 {
                Some("x".to_owned())
            } else if i == 1 {
                Some("y".to_owned())
            } else {
                None
            }
        },
        KindId::Vel => {
            if i == 0 {
                Some("x".to_owned())
            } else if i == 1 {
                Some("y".to_owned())
            } else if i == 2 {
                Some("d".to_owned())
            } else {
                None
            }
        },
        KindId::Render => {
            if i == 0 {
                Some("s_id".to_owned())
            } else if i == 1 {
                Some("w".to_owned())
            } else if i == 2 {
                Some("h".to_owned())
            } else if i == 3 {
                Some("color".to_owned())
            } else if i == 4 {
                Some("layer".to_owned())
            } else if i == 5 {
                Some("flip_x".to_owned())
            } else if i == 6 {
                Some("flip_y".to_owned())
            } else if i == 7 {
                Some("cached_sprite".to_owned())
            } else {
                None
            }
        },
        KindId::CameraAnchor => {
            if i == 0 {
                Some("zoom".to_owned())
            } else if i == 1 {
                Some("smoothness".to_owned())
            } else {
                None
            }
        },
        KindId::Player => {
            if i == 0 {
                Some("speed".to_owned())
            } else {
                None
            }
        },
        KindId::Collider => {
            if i == 0 {
                Some("w".to_owned())
            } else if i == 1 {
                Some("h".to_owned())
            } else if i == 2 {
                Some("is_static".to_owned())
            } else {
                None
            }
        },
        KindId::TileMap => {
            if i == 0 {
                Some("width".to_owned())
            } else if i == 1 {
                Some("height".to_owned())
            } else if i == 2 {
                Some("tile_size".to_owned())
            } else if i == 3 {
                Some("brush_sprite".to_owned())
            } else if i == 4 {
                Some("tiles".to_owned())
            } else {
                None
            }
        },
    }
}

/// The shape of field `i` of kind `k`.
pub fn field_shape(k: KindId, i: usize) -> (r: Option<FieldShape>)
    ensures
        r == field_shape_spec(k, i as int),
{
    match k {
        KindId::Pos => {
            if i == 0 {
                Some(FieldShape::F32)
            } else if i == 1 {
                Some(FieldShape::F32)
            } else {
                None
            }
        },
        KindId::Vel => {
            if i == 0 {
                Some(FieldShape::F32)
            } else if i == 1 {
                Some(FieldShape::F32)
            } else if i == 2 {
                Some(FieldShape::F32)
            } else {
                None
            }
        },
        KindId::Render => {
            if i == 0 {
                Some(FieldShape::Sprite)
            } else if i == 1 {
                Some(FieldShape::F32)
            } else if i == 2 {
                Some(FieldShape::F32)
            } else if i == 3 {
                Some(FieldShape::Color4)
            } else if i == 4 {
                Some(FieldShape::F32)
            } else if i == 5 {
                Some(FieldShape::Bool)
            } else if i == 6 {
                Some(FieldShape::Bool)
            } else if i == 7 {
                None
            } else {
                None
            }
        },
        KindId::CameraAnchor => {
            if i == 0 {
                Some(FieldShape::F32)
            } else if i == 1 {
                Some(FieldShape::F32)
            } else {
                None
            }
        },
        KindId::Player => {
            if i == 0 {
                Some(FieldShape::F32)
            } else {
                None
            }
        },
        KindId::Collider => {
            if i == 0 {
                Some(FieldShape::F32)
            } else if i == 1 {
                Some(FieldShape::F32)
            } else if i == 2 {
                Some(FieldShape::Bool)
            } else {
                None
            }
        },
        KindId::TileMap => {
            if i == 0 {
                Some(FieldShape::USize)
            } else if i == 1 {
                Some(FieldShape::USize)
            } else if i == 2 {
                Some(FieldShape::F32)
            } else if i == 3 {
                Some(FieldShape::Sprite)
            } else if i == 4 {
                None
            } else {
                None
            }
        },
    }
}

/// Read field `i` of `c` as a tagged value.
pub fn get_field(c: &ComponentValue, i: usize) -> (r: Option<FieldValue>)
    ensures
        r == get_field_spec(*c, i as int),
{
    match c {
        ComponentValue::Pos(v) => {
            if i == 0 {
                Some(FieldValue::F32(v.x))
            } else if i == 1 {
                Some(FieldValue::F32(v.y))
            } else {
                None
            }
        },
        ComponentValue::Vel(v) => {
            if i == 0 {
                Some(FieldValue::F32(v.x))
            } else if i == 1 {
                Some(FieldValue::F32(v.y))
            } else if i == 2 {
                Some(FieldValue::F32(v.d))
            } else {
                None
            }
        },
        ComponentValue::Render(v) => {
            if i == 0 {
                Some(FieldValue::Sprite(v.s_id))
            } else if i == 1 {
                Some(FieldValue::F32(v.w))
            } else if i == 2 {
                Some(FieldValue::F32(v.h))
            } else if i == 3 {
                Some(FieldValue::Color4(v.color))
            } else if i == 4 {
                Some(FieldValue::F32(v.layer))
            } else if i == 5 {
                Some(FieldValue::Bool(v.flip_x))
            } else if i == 6 {
                Some(FieldValue::Bool(v.flip_y))
            } else if i == 7 {
                None
            } else {
                None
            }
        },
        ComponentValue::CameraAnchor(v) => {
            if i == 0 {
                Some(FieldValue::F32(v.zoom))
            } else if i == 1 {
                Some(FieldValue::F32(v.smoothness))
            } else {
                None
            }
        },
        ComponentValue::Player(v) => {
            if i == 0 {
                Some(FieldValue::F32(v.speed))
            } else {
                None
            }
        },
        ComponentValue::Collider(v) => {
            if i == 0 {
                Some(FieldValue::F32(v.w))
            } else if i == 1 {
                Some(FieldValue::F32(v.h))
            } else if i == 2 {
                Some(FieldValue::Bool(v.is_static))
            } else {
                None
            }
        },
        ComponentValue::TileMap(v) => {
            if i == 0 {
                Some(FieldValue::USize(v.width))
            } else if i == 1 {
                Some(FieldValue::USize(v.height))
            } else if i == 2 {
                Some(FieldValue::F32(v.tile_size))
            } else if i == 3 {
                Some(FieldValue::Sprite(v.brush_sprite))
            } else if i == 4 {
                None
            } else {
                None
            }
        },
    }
}

/// Write field `i` of `c` from a tagged value; hands back the updated
/// component and whether the write applied.  A wrong shape, a field
/// outside the probe set, or an index out of range leaves the
/// component as it was.
pub fn set_field(c: ComponentValue, i: usize, nv: FieldValue) -> (r: (ComponentValue, bool))
    ensures
        match set_field_spec(c, i as int, nv) {
            Some(c2) => r.1 && r.0 == c2,
            None => !r.1 && r.0 == c,
        },
{
    match c {
        ComponentValue::Pos(v) => {
            if i == 0 {
                match nv {
                    FieldValue::F32(b) => (ComponentValue::Pos(Pos { x: b, ..v }), true),
                    _ => (ComponentValue::Pos(v), false),
                }
            } else if i == 1 {
                match nv {
                    FieldValue::F32(b) => (ComponentValue::Pos(Pos { y: b, ..v }), true),
                    _ => (ComponentValue::Pos(v), false),
                }
            } else {
                (ComponentValue::Pos(v), false)
            }
        },
        ComponentValue::Vel(v) => {
            if i == 0 {
                match nv {
                    FieldValue::F32(b) => (ComponentValue::Vel(Vel { x: b, ..v }), true),
                    _ => (ComponentValue::Vel(v), false),
                }
            } else if i == 1 {
                match nv {
                    FieldValue::F32(b) => (ComponentValue::Vel(Vel { y: b, ..v }), true),
                    _ => (ComponentValue::Vel(v), false),
                }
            } else if i == 2 {
                match nv {
                    FieldValue::F32(b) => (ComponentValue::Vel(Vel { d: b, ..v }), true),
                    _ => (ComponentValue::Vel(v), false),
                }
            } else {
                (ComponentValue::Vel(v), false)
            }
        },
        ComponentValue::Render(v) => {
            if i == 0 {
                match nv {
                    FieldValue::Sprite(b) => (ComponentValue::Render(Render { s_id: b, cached_sprite: None, ..v }), true),
                    _ => (ComponentValue::Render(v), false),
                }
            } else if i == 1 {
                match nv {
                    FieldValue::F32(b) => (ComponentValue::Render(Render { w: b, ..v }), true),
                    _ => (ComponentValue::Render(v), false),
                }
            } else if i == 2 {
                match nv {
                    FieldValue::F32(b) => (ComponentValue::Render(Render { h: b, ..v }), true),
                    _ => (ComponentValue::Render(v), false),
                }
            } else if i == 3 {
                match nv {
                    FieldValue::Color4(b) => (ComponentValue::Render(Render { color: b, ..v }), true),
                    _ => (ComponentValue::Render(v), false),
                }
            } else if i == 4 {
                match nv {
                    FieldValue::F32(b) => (ComponentValue::Render(Render { layer: b, ..v }), true),
                    _ => (ComponentValue::Render(v), false),
                }
            } else if i == 5 {
                match nv {
                    FieldValue::Bool(b) => (ComponentValue::Render(Render { flip_x: b, ..v }), true),
                    _ => (ComponentValue::Render(v), false),
                }
            } else if i == 6 {
                match nv {
                    FieldValue::Bool(b) => (ComponentValue::Render(Render { flip_y: b, ..v }), true),
                    _ => (ComponentValue::Render(v), false),
                }
            } else if i == 7 {
                (ComponentValue::Render(v), false)
            } else {
                (ComponentValue::Render(v), false)
            }
        },
        ComponentValue::CameraAnchor(v) => {
            if i == 0 {
                match nv {
                    FieldValue::F32(b) => (ComponentValue::CameraAnchor(CameraAnchor { zoom: b, ..v }), true),
                    _ => (ComponentValue::CameraAnchor(v), false),
                }
            } else if i == 1 {
                match nv {
                    FieldValue::F32(b) => (ComponentValue::CameraAnchor(CameraAnchor { smoothness: b, ..v }), true),
                    _ => (ComponentValue::CameraAnchor(v), false),
                }
            } else {
                (ComponentValue::CameraAnchor(v), false)
            }
        },
        ComponentValue::Player(v) => {
            if i == 0 {
                match nv {
                    FieldValue::F32(b) => (ComponentValue::Player(Player { speed: b, ..v }), true),
                    _ => (ComponentValue::Player(v), false),
                }
            } else {
                (ComponentValue::Player(v), false)
            }
        },
        ComponentValue::Collider(v) => {
            if i == 0 {
                match nv {
                    FieldValue::F32(b) => (ComponentValue::Collider(Collider { w: b, ..v }), true),
                    _ => (ComponentValue::Collider(v), false),
                }
            } else if i == 1 {
                match nv {
                    FieldValue::F32(b) => (ComponentValue::Collider(Collider { h: b, ..v }), true),
                    _ => (ComponentValue::Collider(v), false),
                }
            } else if i == 2 {
                match nv {
                    FieldValue::Bool(b) => (ComponentValue::Collider(Collider { is_static: b, ..v }), true),
                    _ => (ComponentValue::Collider(v), false),
                }
            } else {
                (ComponentValue::Collider(v), false)
            }
        },
        ComponentValue::TileMap(v) => {
            if i == 0 {
                match nv {
                    FieldValue::USize(b) => (ComponentValue::TileMap(TileMap { width: b, ..v }), true),
                    _ => (ComponentValue::TileMap(v), false),
                }
            } else if i == 1 {
                match nv {
                    FieldValue::USize(b) => (ComponentValue::TileMap(TileMap { height: b, ..v }), true),
                    _ => (ComponentValue::TileMap(v), false),
                }
            } else if i == 2 {
                match nv {
                    FieldValue::F32(b) => (ComponentValue::TileMap(TileMap { tile_size: b, ..v }), true),
                    _ => (ComponentValue::TileMap(v), false),
                }
            } else if i == 3 {
                match nv {
                    FieldValue::Sprite(b) => (ComponentValue::TileMap(TileMap { brush_sprite: b, ..v }), true),
                    _ => (ComponentValue::TileMap(v), false),
                }
            } else if i == 4 {
                (ComponentValue::TileMap(v), false)
            } else {
                (ComponentValue::TileMap(v), false)
            }
        },
    }
}

} // verus!
