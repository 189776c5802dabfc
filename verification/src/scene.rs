//! The scene aggregate: the serializable snapshot of a world.
//!
//! One ordered sequence per component kind of (persisted entity id, value)
//! pairs.  A persisted id appearing in several kinds' sequences denotes
//! components of the same original entity; the id means nothing outside a
//! single payload.
use vstd::prelude::*;

use crate::components::CameraAnchor;
use crate::components::Collider;
use crate::components::Player;
use crate::components::Pos;
use crate::components::Render;
use crate::components::TileMap;
use crate::components::TileMapV;
use crate::components::Vel;

verus! {

/// The serializable snapshot, one pair list per component kind, in the
/// schema's declaration order.
pub struct Scene {
    pub pos: Vec<(u64, Pos)>,
    pub vel: Vec<(u64, Vel)>,
    pub render: Vec<(u64, Render)>,
    pub camera_anchor: Vec<(u64, CameraAnchor)>,
    pub player: Vec<(u64, Player)>,
    pub collider: Vec<(u64, Collider)>,
    pub tile_map: Vec<(u64, TileMap)>,
}

/// The mathematical value of a [`Scene`].
#[verifier::ext_equal]
pub ghost struct SceneModel {
    pub pos: Seq<(u64, Pos)>,
    pub vel: Seq<(u64, Vel)>,
    pub render: Seq<(u64, Render)>,
    pub camera_anchor: Seq<(u64, CameraAnchor)>,
    pub player: Seq<(u64, Player)>,
    pub collider: Seq<(u64, Collider)>,
    pub tile_map: Seq<(u64, TileMapV)>,
}

impl View for Scene {
    type V = SceneModel;

    open spec fn view(&self) -> SceneModel {
        SceneModel {
            pos: self.pos@,
            vel: self.vel@,
            render: self.render@,
            camera_anchor: self.camera_anchor@,
            player: self.player@,
            collider: self.collider@,
            tile_map: self.tile_map@.map_values(|p: (u64, TileMap)| (p.0, p.1@)),
        }
    }
}

/// The scene with no entries at all.
pub open spec fn scene_empty() -> SceneModel {
    SceneModel {
        pos: Seq::empty(),
        vel: Seq::empty(),
        render: Seq::empty(),
        camera_anchor: Seq::empty(),
        player: Seq::empty(),
        collider: Seq::empty(),
        tile_map: Seq::empty(),
    }
}

/// Machine bounds under which a scene can be persisted: each kind's pair
/// list and each tile grid is shorter than two to the thirty-second.
pub open spec fn scene_wf(m: SceneModel) -> bool {
    &&& m.pos.len() < 0x100000000
    &&& m.vel.len() < 0x100000000
    &&& m.render.len() < 0x100000000
    &&& m.camera_anchor.len() < 0x100000000
    &&& m.player.len() < 0x100000000
    &&& m.collider.len() < 0x100000000
    &&& m.tile_map.len() < 0x100000000
    &&& forall|k: int|
        0 <= k < m.tile_map.len() ==> (#[trigger] m.tile_map[k]).1.tiles.len() < 0x100000000
}

impl Default for Scene {
    fn default() -> (r: Self)
        ensures
            r@ == scene_empty(),
    {
        let r = Scene {
            pos: Vec::new(),
            vel: Vec::new(),
            render: Vec::new(),
            camera_anchor: Vec::new(),
            player: Vec::new(),
            collider: Vec::new(),
            tile_map: Vec::new(),
        };
        proof {
            assert(r@ =~= scene_empty());
        }
        r
    }
}

} // verus!
