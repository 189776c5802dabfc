//! The schema registry's runtime face: the closed list of component
//! kinds, each with its name, its default value and a tagged carrier
//! for type-erased handling.
use vstd::prelude::*;

use crate::components::CameraAnchor;
use crate::components::Collider;
use crate::components::Player;
use crate::components::Pos;
use crate::components::Render;
use crate::components::TileMap;
use crate::components::Vel;

verus! {

/// One registered component kind, in declaration order.
#[derive(Clone, Copy, PartialEq, Eq, Structural, Debug)]
pub enum KindId {
    Pos,
    Vel,
    Render,
    CameraAnchor,
    Player,
    Collider,
    TileMap,
}

/// A component value of any registered kind, tagged with its kind.
#[derive(Clone, Debug)]
pub enum ComponentValue {
    Pos(Pos),
    Vel(Vel),
    Render(Render),
    CameraAnchor(CameraAnchor),
    Player(Player),
    Collider(Collider),
    TileMap(TileMap),
}

impl ComponentValue {
    /// The kind a carried value belongs to.
    pub open spec fn kind_spec(self) -> KindId {
        match self {
            ComponentValue::Pos(_) => KindId::Pos,
            ComponentValue::Vel(_) => KindId::Vel,
            ComponentValue::Render(_) => KindId::Render,
            ComponentValue::CameraAnchor(_) => KindId::CameraAnchor,
            ComponentValue::Player(_) => KindId::Player,
            ComponentValue::Collider(_) => KindId::Collider,
            ComponentValue::TileMap(_) => KindId::TileMap,
        }
    }

    /// The kind a carried value belongs to.
    pub fn kind(&self) -> (k: KindId)
        ensures
            k == self.kind_spec(),
    {
        match self {
            ComponentValue::Pos(_) => KindId::Pos,
            ComponentValue::Vel(_) => KindId::Vel,
            ComponentValue::Render(_) => KindId::Render,
            ComponentValue::CameraAnchor(_) => KindId::CameraAnchor,
            ComponentValue::Player(_) => KindId::Player,
            ComponentValue::Collider(_) => KindId::Collider,
            ComponentValue::TileMap(_) => KindId::TileMap,
        }
    }
}

/// Every kind's identifier, in declaration order.
pub fn all_kinds() -> (r: Vec<KindId>)
    ensures
        r@ =~= seq![
            KindId::Pos,
            KindId::Vel,
            KindId::Render,
            KindId::CameraAnchor,
            KindId::Player,
            KindId::Collider,
            KindId::TileMap,
        ],
{
    let mut v: Vec<KindId> = Vec::new();
    v.push(KindId::Pos);
    v.push(KindId::Vel);
    v.push(KindId::Render);
    v.push(KindId::CameraAnchor);
    v.push(KindId::Player);
    v.push(KindId::Collider);
    v.push(KindId::TileMap);
    v
}

/// Every kind's name, in declaration order, for add-component menus.
pub fn kind_names() -> (r: Vec<String>)
    ensures
        r@.len() == 7,
        r@[0]@ == "Pos"@,
        r@[1]@ == "Vel"@,
        r@[2]@ == "Render"@,
        r@[3]@ == "CameraAnchor"@,
        r@[4]@ == "Player"@,
        r@[5]@ == "Collider"@,
        r@[6]@ == "TileMap"@,
{
    let mut v: Vec<String> = Vec::new();
    v.push("Pos".to_owned());
    v.push("Vel".to_owned());
    v.push("Render".to_owned());
    v.push("CameraAnchor".to_owned());
    v.push("Player".to_owned());
    v.push("Collider".to_owned());
    v.push("TileMap".to_owned());
    v
}

/// Construct a kind's declared default value: every field with a
/// declared default takes it, every other field the zero of its type.
/// Each call builds an independent value.
pub fn default_component(k: KindId) -> (c: ComponentValue)
    ensures
        c.kind_spec() == k,
        k == KindId::Pos ==> c == ComponentValue::Pos(Pos::default_spec()),
        k == KindId::Vel ==> c == ComponentValue::Vel(Vel::default_spec()),
        k == KindId::Render ==> c == ComponentValue::Render(Render::default_spec()),
        k == KindId::CameraAnchor ==> c == ComponentValue::CameraAnchor(
            CameraAnchor::default_spec(),
        ),
        k == KindId::Player ==> c == ComponentValue::Player(Player::default_spec()),
        k == KindId::Collider ==> c == ComponentValue::Collider(Collider::default_spec()),
        k == KindId::TileMap ==> (match c {
            ComponentValue::TileMap(t) => t@ == TileMap::default_spec() && t.wf(),
            _ => false,
        }),
{
    match k {
        KindId::Pos => ComponentValue::Pos(Pos::default()),
        KindId::Vel => ComponentValue::Vel(Vel::default()),
        KindId::Render => ComponentValue::Render(Render::default()),
        KindId::CameraAnchor => ComponentValue::CameraAnchor(CameraAnchor::default()),
        KindId::Player => ComponentValue::Player(Player::default()),
        KindId::Collider => ComponentValue::Collider(Collider::default()),
        KindId::TileMap => ComponentValue::TileMap(TileMap::default()),
    }
}

} // verus!
