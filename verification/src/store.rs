//! The verified face of the entity-component store.
//!
//! The store itself is `hecs::World`, an outside collaborator.  Its
//! contents are named by uninterpreted view functions ([`live_of`] and
//! one map per component kind, keyed by the entity identity's raw 64-bit
//! pattern), and every call into `hecs` goes through a trusted wrapper
//! whose contract states, over those names, what the call does.  The
//! [`Store`] type wraps the world and maintains [`Store::inv`]; all world
//! saving, loading and entity duplication is verified against the
//! wrappers' contracts.
use vstd::prelude::*;

use crate::components::CameraAnchor;
use crate::components::Collider;
use crate::components::Player;
use crate::components::Pos;
use crate::components::Render;
use crate::components::TileMap;
use crate::components::TileMapV;
use crate::components::Vel;
use crate::codec::enc_scene;
use crate::codec::persist_render_entry;
use crate::codec::persist_scene;
use crate::codec::dec_scene_full;
use crate::codec::decode_scene;
use crate::codec::encode_scene;
use crate::scene::scene_wf;
use crate::scene::Scene;
use crate::scene::SceneModel;

verus! {

#[verifier::external_type_specification]
#[verifier::external_body]
pub struct ExWorld(hecs::World);

/// The raw 64-bit identity patterns of the world's live entities.
pub uninterp spec fn live_of(w: hecs::World) -> Set<u64>;

/// The world's position components, by entity identity pattern.
pub uninterp spec fn pos_of(w: hecs::World) -> Map<u64, Pos>;

/// The world's velocity components, by entity identity pattern.
pub uninterp spec fn vel_of(w: hecs::World) -> Map<u64, Vel>;

/// The world's render components, by entity identity pattern.
pub uninterp spec fn render_of(w: hecs::World) -> Map<u64, Render>;

/// The world's camera anchor components, by entity identity pattern.
pub uninterp spec fn camera_anchor_of(w: hecs::World) -> Map<u64, CameraAnchor>;

/// The world's player components, by entity identity pattern.
pub uninterp spec fn player_of(w: hecs::World) -> Map<u64, Player>;

/// The world's collider components, by entity identity pattern.
pub uninterp spec fn collider_of(w: hecs::World) -> Map<u64, Collider>;

/// The world's tile map components, by entity identity pattern.
pub uninterp spec fn tile_map_of(w: hecs::World) -> Map<u64, TileMapV>;

/// Everything this core reads of a world: the live set and one
/// component map per kind.
#[verifier::ext_equal]
pub ghost struct StoreView {
    pub live: Set<u64>,
    pub pos: Map<u64, Pos>,
    pub vel: Map<u64, Vel>,
    pub render: Map<u64, Render>,
    pub camera_anchor: Map<u64, CameraAnchor>,
    pub player: Map<u64, Player>,
    pub collider: Map<u64, Collider>,
    pub tile_map: Map<u64, TileMapV>,
}

/// The view of a world, assembled from the content names.
pub open spec fn world_view(w: hecs::World) -> StoreView {
    StoreView {
        live: live_of(w),
        pos: pos_of(w),
        vel: vel_of(w),
        render: render_of(w),
        camera_anchor: camera_anchor_of(w),
        player: player_of(w),
        collider: collider_of(w),
        tile_map: tile_map_of(w),
    }
}

/// The view of a world with no entities.
pub open spec fn empty_view() -> StoreView {
    StoreView {
        live: Set::empty(),
        pos: Map::empty(),
        vel: Map::empty(),
        render: Map::empty(),
        camera_anchor: Map::empty(),
        player: Map::empty(),
        collider: Map::empty(),
        tile_map: Map::empty(),
    }
}

/// What always holds of a view this library has produced: components sit
/// only on live entities, the live set is finite and smaller than the
/// identity space, and every stored tile grid is persistable.
pub open spec fn view_inv(v: StoreView) -> bool {
    &&& v.live.finite()
    &&& v.live.len() <= 0xffffffff
    &&& v.pos.dom() <= v.live
    &&& v.vel.dom() <= v.live
    &&& v.render.dom() <= v.live
    &&& v.camera_anchor.dom() <= v.live
    &&& v.player.dom() <= v.live
    &&& v.collider.dom() <= v.live
    &&& v.tile_map.dom() <= v.live
    &&& forall|b: u64|
        v.tile_map.dom().contains(b) ==> (#[trigger] v.tile_map[b]).tiles.len() < 0x100000000
}

/// Relies on `hecs::World::new`: a new world has no entities and no
/// components.
#[verifier::external_body]
fn world_new() -> (w: hecs::World)
    ensures
        forall|b: u64| !live_of(w).contains(b),
        forall|b: u64| !pos_of(w).dom().contains(b),
        forall|b: u64| !vel_of(w).dom().contains(b),
        forall|b: u64| !render_of(w).dom().contains(b),
        forall|b: u64| !camera_anchor_of(w).dom().contains(b),
        forall|b: u64| !player_of(w).dom().contains(b),
        forall|b: u64| !collider_of(w).dom().contains(b),
        forall|b: u64| !tile_map_of(w).dom().contains(b),
{
    hecs::World::new()
}

/// Relies on `hecs::World::clear`: it despawns every entity and drops
/// every component.
#[verifier::external_body]
fn world_clear(w: &mut hecs::World)
    ensures
        forall|b: u64| !live_of(*final(w)).contains(b),
        forall|b: u64| !pos_of(*final(w)).dom().contains(b),
        forall|b: u64| !vel_of(*final(w)).dom().contains(b),
        forall|b: u64| !render_of(*final(w)).dom().contains(b),
        forall|b: u64| !camera_anchor_of(*final(w)).dom().contains(b),
        forall|b: u64| !player_of(*final(w)).dom().contains(b),
        forall|b: u64| !collider_of(*final(w)).dom().contains(b),
        forall|b: u64| !tile_map_of(*final(w)).dom().contains(b),
{
    w.clear()
}

/// Relies on `hecs::World::spawn` with an empty bundle: it creates a live
/// entity, distinct from every live entity, with no components; on
/// `hecs::Entity::to_bits`, distinct for distinct live entities; and on
/// the live entity count, which `hecs` keeps in a `u32` and which must
/// have room, else `hecs` aborts the process.
#[verifier::external_body]
fn world_spawn_empty(w: &mut hecs::World) -> (b: u64)
    requires
        live_of(*old(w)).finite(),
        live_of(*old(w)).len() < 0xffffffff,
    ensures
        !world_view(*old(w)).live.contains(b),
        world_view(*final(w)) == (StoreView {
            live: world_view(*old(w)).live.insert(b),
            ..world_view(*old(w))
        }),
{
    w.spawn(()).to_bits().get()
}

/// Relies on `hecs::World::despawn`: it removes a live entity with all
/// its components and touches nothing else; on a dead or malformed
/// handle it errs and is a no-op.
#[verifier::external_body]
fn world_despawn(w: &mut hecs::World, b: u64) -> (ok: bool)
    ensures
        ok == world_view(*old(w)).live.contains(b),
        world_view(*final(w)) == (StoreView {
            live: world_view(*old(w)).live.remove(b),
            pos: world_view(*old(w)).pos.remove(b),
            vel: world_view(*old(w)).vel.remove(b),
            render: world_view(*old(w)).render.remove(b),
            camera_anchor: world_view(*old(w)).camera_anchor.remove(b),
            player: world_view(*old(w)).player.remove(b),
            collider: world_view(*old(w)).collider.remove(b),
            tile_map: world_view(*old(w)).tile_map.remove(b),
        }),
{
    match hecs::Entity::from_bits(b) {
        Some(e) => w.despawn(e).is_ok(),
        None => false,
    }
}

/// Relies on `hecs::World::contains` and `hecs::Entity::from_bits`.
#[verifier::external_body]
fn world_contains(w: &hecs::World, b: u64) -> (r: bool)
    ensures
        r == world_view(*w).live.contains(b),
{
    match hecs::Entity::from_bits(b) {
        Some(e) => w.contains(e),
        None => false,
    }
}


/// Relies on `hecs::World::iter`: it visits each live entity exactly
/// once; and on `hecs::Entity::to_bits`, distinct for distinct live
/// entities.
#[verifier::external_body]
fn world_live_ids(w: &hecs::World) -> (r: Vec<u64>)
    ensures
        forall|k: int| 0 <= k < r@.len() ==> world_view(*w).live.contains(#[trigger] r@[k]),
        forall|k1: int, k2: int| 0 <= k1 < k2 < r@.len() ==> r@[k1] != r@[k2],
        forall|b: u64|
            #[trigger] world_view(*w).live.contains(b) ==> exists|k: int|
                0 <= k < r@.len() && r@[k] == b,
{
    let mut out = Vec::new();
    for e in w.iter() {
        out.push(e.entity().to_bits().get());
    }
    out
}

/// Relies on `hecs::World::len`: the number of live entities, which
/// `hecs` keeps in a `u32` and which stays in range while fewer than
/// the full identity space is live.
#[verifier::external_body]
fn world_len(w: &hecs::World) -> (r: u32)
    requires
        live_of(*w).finite(),
        live_of(*w).len() <= 0xffffffff,
    ensures
        r as nat == world_view(*w).live.len(),
{
    w.len()
}

/// Relies on `hecs::World::insert_one`: it adds or replaces this kind's
/// component on a live entity and touches nothing else, and errs on a
/// dead entity; and on `hecs::Entity::from_bits`/`to_bits` round-tripping.
#[verifier::external_body]
fn world_insert_pos(w: &mut hecs::World, b: u64, c: Pos) -> (ok: bool)
    ensures
        ok == world_view(*old(w)).live.contains(b),
        ok ==> world_view(*final(w)) == (StoreView {
            pos: world_view(*old(w)).pos.insert(b, c),
            ..world_view(*old(w))
        }),
        !ok ==> world_view(*final(w)) == world_view(*old(w)),
{
    match hecs::Entity::from_bits(b) {
        Some(e) => w.insert_one(e, c).is_ok(),
        None => false,
    }
}

/// Relies on `hecs::World::get`: it borrows this kind's component of a
/// live entity that has one, and errs otherwise; the value is copied out.
#[verifier::external_body]
fn world_get_pos(w: &hecs::World, b: u64) -> (r: Option<Pos>)
    ensures
        match r {
            Some(c) => world_view(*w).pos.contains_pair(b, c),
            None => !world_view(*w).pos.dom().contains(b),
        },
{
    match hecs::Entity::from_bits(b) {
        Some(e) => match w.get::<&Pos>(e) {
            Ok(c) => Some((*c).clone()),
            Err(_) => None,
        },
        None => None,
    }
}

/// Relies on `hecs::World::query` over one kind: it yields each live
/// entity holding the kind exactly once, with its component; on
/// `hecs::Entity::to_bits`, distinct for distinct live entities; and on
/// the world's entity count, which `hecs` keeps in a `u32`.
#[verifier::external_body]
fn world_collect_pos(w: &hecs::World) -> (r: Vec<(u64, Pos)>)
    requires
        live_of(*w).finite(),
        live_of(*w).len() <= 0xffffffff,
    ensures
        r@.len() < 0x100000000,
        forall|k: int|
            0 <= k < r@.len() ==> #[trigger] world_view(*w).pos.contains_pair(
                r@[k].0,
                r@[k].1,
            ),
        forall|k1: int, k2: int| 0 <= k1 < k2 < r@.len() ==> r@[k1].0 != r@[k2].0,
        forall|b: u64|
            #[trigger] world_view(*w).pos.dom().contains(b) ==> exists|k: int|
                0 <= k < r@.len() && r@[k].0 == b,
{
    let mut out = Vec::new();
    let mut q = w.query::<(hecs::Entity, &Pos)>();
    for (e, c) in q.iter() {
        out.push((e.to_bits().get(), c.clone()));
    }
    out
}

/// Relies on `hecs::World::insert_one`: it adds or replaces this kind's
/// component on a live entity and touches nothing else, and errs on a
/// dead entity; and on `hecs::Entity::from_bits`/`to_bits` round-tripping.
#[verifier::external_body]
fn world_insert_vel(w: &mut hecs::World, b: u64, c: Vel) -> (ok: bool)
    ensures
        ok == world_view(*old(w)).live.contains(b),
        ok ==> world_view(*final(w)) == (StoreView {
            vel: world_view(*old(w)).vel.insert(b, c),
            ..world_view(*old(w))
        }),
        !ok ==> world_view(*final(w)) == world_view(*old(w)),
{
    match hecs::Entity::from_bits(b) {
        Some(e) => w.insert_one(e, c).is_ok(),
        None => false,
    }
}

/// Relies on `hecs::World::get`: it borrows this kind's component of a
/// live entity that has one, and errs otherwise; the value is copied out.
#[verifier::external_body]
fn world_get_vel(w: &hecs::World, b: u64) -> (r: Option<Vel>)
    ensures
        match r {
            Some(c) => world_view(*w).vel.contains_pair(b, c),
            None => !world_view(*w).vel.dom().contains(b),
        },
{
    match hecs::Entity::from_bits(b) {
        Some(e) => match w.get::<&Vel>(e) {
            Ok(c) => Some((*c).clone()),
            Err(_) => None,
        },
        None => None,
    }
}

/// Relies on `hecs::World::query` over one kind: it yields each live
/// entity holding the kind exactly once, with its component; on
/// `hecs::Entity::to_bits`, distinct for distinct live entities; and on
/// the world's entity count, which `hecs` keeps in a `u32`.
#[verifier::external_body]
fn world_collect_vel(w: &hecs::World) -> (r: Vec<(u64, Vel)>)
    requires
        live_of(*w).finite(),
        live_of(*w).len() <= 0xffffffff,
    ensures
        r@.len() < 0x100000000,
        forall|k: int|
            0 <= k < r@.len() ==> #[trigger] world_view(*w).vel.contains_pair(
                r@[k].0,
                r@[k].1,
            ),
        forall|k1: int, k2: int| 0 <= k1 < k2 < r@.len() ==> r@[k1].0 != r@[k2].0,
        forall|b: u64|
            #[trigger] world_view(*w).vel.dom().contains(b) ==> exists|k: int|
                0 <= k < r@.len() && r@[k].0 == b,
{
    let mut out = Vec::new();
    let mut q = w.query::<(hecs::Entity, &Vel)>();
    for (e, c) in q.iter() {
        out.push((e.to_bits().get(), c.clone()));
    }
    out
}

/// Relies on `hecs::World::insert_one`: it adds or replaces this kind's
/// component on a live entity and touches nothing else, and errs on a
/// dead entity; and on `hecs::Entity::from_bits`/`to_bits` round-tripping.
#[verifier::external_body]
fn world_insert_render(w: &mut hecs::World, b: u64, c: Render) -> (ok: bool)
    ensures
        ok == world_view(*old(w)).live.contains(b),
        ok ==> world_view(*final(w)) == (StoreView {
            render: world_view(*old(w)).render.insert(b, c),
            ..world_view(*old(w))
        }),
        !ok ==> world_view(*final(w)) == world_view(*old(w)),
{
    match hecs::Entity::from_bits(b) {
        Some(e) => w.insert_one(e, c).is_ok(),
        None => false,
    }
}

/// Relies on `hecs::World::get`: it borrows this kind's component of a
/// live entity that has one, and errs otherwise; the value is copied out.
#[verifier::external_body]
fn world_get_render(w: &hecs::World, b: u64) -> (r: Option<Render>)
    ensures
        match r {
            Some(c) => world_view(*w).render.contains_pair(b, c),
            None => !world_view(*w).render.dom().contains(b),
        },
{
    match hecs::Entity::from_bits(b) {
        Some(e) => match w.get::<&Render>(e) {
            Ok(c) => Some((*c).clone()),
            Err(_) => None,
        },
        None => None,
    }
}

/// Relies on `hecs::World::query` over one kind: it yields each live
/// entity holding the kind exactly once, with its component; on
/// `hecs::Entity::to_bits`, distinct for distinct live entities; and on
/// the world's entity count, which `hecs` keeps in a `u32`.
#[verifier::external_body]
fn world_collect_render(w: &hecs::World) -> (r: Vec<(u64, Render)>)
    requires
        live_of(*w).finite(),
        live_of(*w).len() <= 0xffffffff,
    ensures
        r@.len() < 0x100000000,
        forall|k: int|
            0 <= k < r@.len() ==> #[trigger] world_view(*w).render.contains_pair(
                r@[k].0,
                r@[k].1,
            ),
        forall|k1: int, k2: int| 0 <= k1 < k2 < r@.len() ==> r@[k1].0 != r@[k2].0,
        forall|b: u64|
            #[trigger] world_view(*w).render.dom().contains(b) ==> exists|k: int|
                0 <= k < r@.len() && r@[k].0 == b,
{
    let mut out = Vec::new();
    let mut q = w.query::<(hecs::Entity, &Render)>();
    for (e, c) in q.iter() {
        out.push((e.to_bits().get(), c.clone()));
    }
    out
}

/// Relies on `hecs::World::insert_one`: it adds or replaces this kind's
/// component on a live entity and touches nothing else, and errs on a
/// dead entity; and on `hecs::Entity::from_bits`/`to_bits` round-tripping.
#[verifier::external_body]
fn world_insert_camera_anchor(w: &mut hecs::World, b: u64, c: CameraAnchor) -> (ok: bool)
    ensures
        ok == world_view(*old(w)).live.contains(b),
        ok ==> world_view(*final(w)) == (StoreView {
            camera_anchor: world_view(*old(w)).camera_anchor.insert(b, c),
            ..world_view(*old(w))
        }),
        !ok ==> world_view(*final(w)) == world_view(*old(w)),
{
    match hecs::Entity::from_bits(b) {
        Some(e) => w.insert_one(e, c).is_ok(),
        None => false,
    }
}

/// Relies on `hecs::World::get`: it borrows this kind's component of a
/// live entity that has one, and errs otherwise; the value is copied out.
#[verifier::external_body]
fn world_get_camera_anchor(w: &hecs::World, b: u64) -> (r: Option<CameraAnchor>)
    ensures
        match r {
            Some(c) => world_view(*w).camera_anchor.contains_pair(b, c),
            None => !world_view(*w).camera_anchor.dom().contains(b),
        },
{
    match hecs::Entity::from_bits(b) {
        Some(e) => match w.get::<&CameraAnchor>(e) {
            Ok(c) => Some((*c).clone()),
            Err(_) => None,
        },
        None => None,
    }
}

/// Relies on `hecs::World::query` over one kind: it yields each live
/// entity holding the kind exactly once, with its component; on
/// `hecs::Entity::to_bits`, distinct for distinct live entities; and on
/// the world's entity count, which `hecs` keeps in a `u32`.
#[verifier::external_body]
fn world_collect_camera_anchor(w: &hecs::World) -> (r: Vec<(u64, CameraAnchor)>)
    requires
        live_of(*w).finite(),
        live_of(*w).len() <= 0xffffffff,
    ensures
        r@.len() < 0x100000000,
        forall|k: int|
            0 <= k < r@.len() ==> #[trigger] world_view(*w).camera_anchor.contains_pair(
                r@[k].0,
                r@[k].1,
            ),
        forall|k1: int, k2: int| 0 <= k1 < k2 < r@.len() ==> r@[k1].0 != r@[k2].0,
        forall|b: u64|
            #[trigger] world_view(*w).camera_anchor.dom().contains(b) ==> exists|k: int|
                0 <= k < r@.len() && r@[k].0 == b,
{
    let mut out = Vec::new();
    let mut q = w.query::<(hecs::Entity, &CameraAnchor)>();
    for (e, c) in q.iter() {
        out.push((e.to_bits().get(), c.clone()));
    }
    out
}

/// Relies on `hecs::World::insert_one`: it adds or replaces this kind's
/// component on a live entity and touches nothing else, and errs on a
/// dead entity; and on `hecs::Entity::from_bits`/`to_bits` round-tripping.
#[verifier::external_body]
fn world_insert_player(w: &mut hecs::World, b: u64, c: Player) -> (ok: bool)
    ensures
        ok == world_view(*old(w)).live.contains(b),
        ok ==> world_view(*final(w)) == (StoreView {
            player: world_view(*old(w)).player.insert(b, c),
            ..world_view(*old(w))
        }),
        !ok ==> world_view(*final(w)) == world_view(*old(w)),
{
    match hecs::Entity::from_bits(b) {
        Some(e) => w.insert_one(e, c).is_ok(),
        None => false,
    }
}

/// Relies on `hecs::World::get`: it borrows this kind's component of a
/// live entity that has one, and errs otherwise; the value is copied out.
#[verifier::external_body]
fn world_get_player(w: &hecs::World, b: u64) -> (r: Option<Player>)
    ensures
        match r {
            Some(c) => world_view(*w).player.contains_pair(b, c),
            None => !world_view(*w).player.dom().contains(b),
        },
{
    match hecs::Entity::from_bits(b) {
        Some(e) => match w.get::<&Player>(e) {
            Ok(c) => Some((*c).clone()),
            Err(_) => None,
        },
        None => None,
    }
}

/// Relies on `hecs::World::query` over one kind: it yields each live
/// entity holding the kind exactly once, with its component; on
/// `hecs::Entity::to_bits`, distinct for distinct live entities; and on
/// the world's entity count, which `hecs` keeps in a `u32`.
#[verifier::external_body]
fn world_collect_player(w: &hecs::World) -> (r: Vec<(u64, Player)>)
    requires
        live_of(*w).finite(),
        live_of(*w).len() <= 0xffffffff,
    ensures
        r@.len() < 0x100000000,
        forall|k: int|
            0 <= k < r@.len() ==> #[trigger] world_view(*w).player.contains_pair(
                r@[k].0,
                r@[k].1,
            ),
        forall|k1: int, k2: int| 0 <= k1 < k2 < r@.len() ==> r@[k1].0 != r@[k2].0,
        forall|b: u64|
            #[trigger] world_view(*w).player.dom().contains(b) ==> exists|k: int|
                0 <= k < r@.len() && r@[k].0 == b,
{
    let mut out = Vec::new();
    let mut q = w.query::<(hecs::Entity, &Player)>();
    for (e, c) in q.iter() {
        out.push((e.to_bits().get(), c.clone()));
    }
    out
}

/// Relies on `hecs::World::insert_one`: it adds or replaces this kind's
/// component on a live entity and touches nothing else, and errs on a
/// dead entity; and on `hecs::Entity::from_bits`/`to_bits` round-tripping.
#[verifier::external_body]
fn world_insert_collider(w: &mut hecs::World, b: u64, c: Collider) -> (ok: bool)
    ensures
        ok == world_view(*old(w)).live.contains(b),
        ok ==> world_view(*final(w)) == (StoreView {
            collider: world_view(*old(w)).collider.insert(b, c),
            ..world_view(*old(w))
        }),
        !ok ==> world_view(*final(w)) == world_view(*old(w)),
{
    match hecs::Entity::from_bits(b) {
        Some(e) => w.insert_one(e, c).is_ok(),
        None => false,
    }
}

/// Relies on `hecs::World::get`: it borrows this kind's component of a
/// live entity that has one, and errs otherwise; the value is copied out.
#[verifier::external_body]
fn world_get_collider(w: &hecs::World, b: u64) -> (r: Option<Collider>)
    ensures
        match r {
            Some(c) => world_view(*w).collider.contains_pair(b, c),
            None => !world_view(*w).collider.dom().contains(b),
        },
{
    match hecs::Entity::from_bits(b) {
        Some(e) => match w.get::<&Collider>(e) {
            Ok(c) => Some((*c).clone()),
            Err(_) => None,
        },
        None => None,
    }
}

/// Relies on `hecs::World::query` over one kind: it yields each live
/// entity holding the kind exactly once, with its component; on
/// `hecs::Entity::to_bits`, distinct for distinct live entities; and on
/// the world's entity count, which `hecs` keeps in a `u32`.
#[verifier::external_body]
fn world_collect_collider(w: &hecs::World) -> (r: Vec<(u64, Collider)>)
    requires
        live_of(*w).finite(),
        live_of(*w).len() <= 0xffffffff,
    ensures
        r@.len() < 0x100000000,
        forall|k: int|
            0 <= k < r@.len() ==> #[trigger] world_view(*w).collider.contains_pair(
                r@[k].0,
                r@[k].1,
            ),
        forall|k1: int, k2: int| 0 <= k1 < k2 < r@.len() ==> r@[k1].0 != r@[k2].0,
        forall|b: u64|
            #[trigger] world_view(*w).collider.dom().contains(b) ==> exists|k: int|
                0 <= k < r@.len() && r@[k].0 == b,
{
    let mut out = Vec::new();
    let mut q = w.query::<(hecs::Entity, &Collider)>();
    for (e, c) in q.iter() {
        out.push((e.to_bits().get(), c.clone()));
    }
    out
}

/// Relies on `hecs::World::insert_one`: it adds or replaces this kind's
/// component on a live entity and touches nothing else, and errs on a
/// dead entity; and on `hecs::Entity::from_bits`/`to_bits` round-tripping.
#[verifier::external_body]
fn world_insert_tile_map(w: &mut hecs::World, b: u64, c: TileMap) -> (ok: bool)
    ensures
        ok == world_view(*old(w)).live.contains(b),
        ok ==> world_view(*final(w)) == (StoreView {
            tile_map: world_view(*old(w)).tile_map.insert(b, c@),
            ..world_view(*old(w))
        }),
        !ok ==> world_view(*final(w)) == world_view(*old(w)),
{
    match hecs::Entity::from_bits(b) {
        Some(e) => w.insert_one(e, c).is_ok(),
        None => false,
    }
}

/// Relies on `hecs::World::get`: it borrows this kind's component of a
/// live entity that has one, and errs otherwise; the value is copied out.
#[verifier::external_body]
fn world_get_tile_map(w: &hecs::World, b: u64) -> (r: Option<TileMap>)
    ensures
        match r {
            Some(c) => world_view(*w).tile_map.contains_pair(b, c@),
            None => !world_view(*w).tile_map.dom().contains(b),
        },
{
    match hecs::Entity::from_bits(b) {
        Some(e) => match w.get::<&TileMap>(e) {
            Ok(c) => Some((*c).clone()),
            Err(_) => None,
        },
        None => None,
    }
}

/// Relies on `hecs::World::query` over one kind: it yields each live
/// entity holding the kind exactly once, with its component; on
/// `hecs::Entity::to_bits`, distinct for distinct live entities; and on
/// the world's entity count, which `hecs` keeps in a `u32`.
#[verifier::external_body]
fn world_collect_tile_map(w: &hecs::World) -> (r: Vec<(u64, TileMap)>)
    requires
        live_of(*w).finite(),
        live_of(*w).len() <= 0xffffffff,
    ensures
        r@.len() < 0x100000000,
        forall|k: int|
            0 <= k < r@.len() ==> #[trigger] world_view(*w).tile_map.contains_pair(
                r@[k].0,
                r@[k].1@,
            ),
        forall|k1: int, k2: int| 0 <= k1 < k2 < r@.len() ==> r@[k1].0 != r@[k2].0,
        forall|b: u64|
            #[trigger] world_view(*w).tile_map.dom().contains(b) ==> exists|k: int|
                0 <= k < r@.len() && r@[k].0 == b,
{
    let mut out = Vec::new();
    let mut q = w.query::<(hecs::Entity, &TileMap)>();
    for (e, c) in q.iter() {
        out.push((e.to_bits().get(), c.clone()));
    }
    out
}

/// Relies on `hecs::World::remove_one`: it takes this kind's component
/// off a live entity and touches nothing else; on a dead entity or a
/// missing component it errs and is a no-op.
#[verifier::external_body]
fn world_remove_pos(w: &mut hecs::World, b: u64)
    ensures
        world_view(*final(w)) == (StoreView {
            pos: world_view(*old(w)).pos.remove(b),
            ..world_view(*old(w))
        }),
{
    if let Some(e) = hecs::Entity::from_bits(b) {
        let _ = w.remove_one::<Pos>(e);
    }
}

/// Relies on `hecs::World::remove_one`: it takes this kind's component
/// off a live entity and touches nothing else; on a dead entity or a
/// missing component it errs and is a no-op.
#[verifier::external_body]
fn world_remove_vel(w: &mut hecs::World, b: u64)
    ensures
        world_view(*final(w)) == (StoreView {
            vel: world_view(*old(w)).vel.remove(b),
            ..world_view(*old(w))
        }),
{
    if let Some(e) = hecs::Entity::from_bits(b) {
        let _ = w.remove_one::<Vel>(e);
    }
}

/// Relies on `hecs::World::remove_one`: it takes this kind's component
/// off a live entity and touches nothing else; on a dead entity or a
/// missing component it errs and is a no-op.
#[verifier::external_body]
fn world_remove_render(w: &mut hecs::World, b: u64)
    ensures
        world_view(*final(w)) == (StoreView {
            render: world_view(*old(w)).render.remove(b),
            ..world_view(*old(w))
        }),
{
    if let Some(e) = hecs::Entity::from_bits(b) {
        let _ = w.remove_one::<Render>(e);
    }
}

/// Relies on `hecs::World::remove_one`: it takes this kind's component
/// off a live entity and touches nothing else; on a dead entity or a
/// missing component it errs and is a no-op.
#[verifier::external_body]
fn world_remove_camera_anchor(w: &mut hecs::World, b: u64)
    ensures
        world_view(*final(w)) == (StoreView {
            camera_anchor: world_view(*old(w)).camera_anchor.remove(b),
            ..world_view(*old(w))
        }),
{
    if let Some(e) = hecs::Entity::from_bits(b) {
        let _ = w.remove_one::<CameraAnchor>(e);
    }
}

/// Relies on `hecs::World::remove_one`: it takes this kind's component
/// off a live entity and touches nothing else; on a dead entity or a
/// missing component it errs and is a no-op.
#[verifier::external_body]
fn world_remove_player(w: &mut hecs::World, b: u64)
    ensures
        world_view(*final(w)) == (StoreView {
            player: world_view(*old(w)).player.remove(b),
            ..world_view(*old(w))
        }),
{
    if let Some(e) = hecs::Entity::from_bits(b) {
        let _ = w.remove_one::<Player>(e);
    }
}

/// Relies on `hecs::World::remove_one`: it takes this kind's component
/// off a live entity and touches nothing else; on a dead entity or a
/// missing component it errs and is a no-op.
#[verifier::external_body]
fn world_remove_collider(w: &mut hecs::World, b: u64)
    ensures
        world_view(*final(w)) == (StoreView {
            collider: world_view(*old(w)).collider.remove(b),
            ..world_view(*old(w))
        }),
{
    if let Some(e) = hecs::Entity::from_bits(b) {
        let _ = w.remove_one::<Collider>(e);
    }
}

/// Relies on `hecs::World::remove_one`: it takes this kind's component
/// off a live entity and touches nothing else; on a dead entity or a
/// missing component it errs and is a no-op.
#[verifier::external_body]
fn world_remove_tile_map(w: &mut hecs::World, b: u64)
    ensures
        world_view(*final(w)) == (StoreView {
            tile_map: world_view(*old(w)).tile_map.remove(b),
            ..world_view(*old(w))
        }),
{
    if let Some(e) = hecs::Entity::from_bits(b) {
        let _ = w.remove_one::<TileMap>(e);
    }
}

/// The entity-component store: a `hecs` world kept under this library's
/// invariant, with the world saving, loading and duplication that the
/// scene codec defines.
pub struct Store {
    world: hecs::World,
}

impl View for Store {
    type V = StoreView;

    closed spec fn view(&self) -> StoreView {
        world_view(self.world)
    }
}

impl Store {
    /// The store's invariant; every public operation preserves it.
    pub open spec fn inv(self) -> bool {
        view_inv(self@)
    }

    /// A store with no entities.
    pub fn new() -> (s: Store)
        ensures
            s@ == empty_view(),
            s.inv(),
    {
        let s = Store { world: world_new() };
        proof {
            assert(s@.live =~= Set::<u64>::empty());
            assert(s@.pos =~= Map::<u64, Pos>::empty());
            assert(s@.vel =~= Map::<u64, Vel>::empty());
            assert(s@.render =~= Map::<u64, Render>::empty());
            assert(s@.camera_anchor =~= Map::<u64, CameraAnchor>::empty());
            assert(s@.player =~= Map::<u64, Player>::empty());
            assert(s@.collider =~= Map::<u64, Collider>::empty());
            assert(s@.tile_map =~= Map::<u64, TileMapV>::empty());
            assert(s@ =~= empty_view());
        }
        s
    }

    /// Remove every entity and every component.
    pub fn clear(&mut self)
        ensures
            final(self)@ == empty_view(),
            final(self).inv(),
    {
        world_clear(&mut self.world);
        proof {
            assert(self@.live =~= Set::<u64>::empty());
            assert(self@.pos =~= Map::<u64, Pos>::empty());
            assert(self@.vel =~= Map::<u64, Vel>::empty());
            assert(self@.render =~= Map::<u64, Render>::empty());
            assert(self@.camera_anchor =~= Map::<u64, CameraAnchor>::empty());
            assert(self@.player =~= Map::<u64, Player>::empty());
            assert(self@.collider =~= Map::<u64, Collider>::empty());
            assert(self@.tile_map =~= Map::<u64, TileMapV>::empty());
            assert(self@ =~= empty_view());
        }
    }

    /// Create a fresh live entity with no components, and hand out its
    /// identity pattern.
    pub fn spawn(&mut self) -> (b: u64)
        requires
            old(self).inv(),
            old(self)@.live.len() < 0xffffffff,
        ensures
            final(self).inv(),
            !old(self)@.live.contains(b),
            final(self)@ == (StoreView { live: old(self)@.live.insert(b), ..old(self)@ }),
    {
        world_spawn_empty(&mut self.world)
    }

    /// Is this identity pattern a live entity of the store?
    pub fn is_live(&self, b: u64) -> (r: bool)
        ensures
            r == self@.live.contains(b),
    {
        world_contains(&self.world, b)
    }


    /// The identity patterns of every live entity, each exactly once.
    pub fn entities(&self) -> (r: Vec<u64>)
        ensures
            forall|k: int| 0 <= k < r@.len() ==> self@.live.contains(#[trigger] r@[k]),
            forall|k1: int, k2: int| 0 <= k1 < k2 < r@.len() ==> r@[k1] != r@[k2],
            forall|b: u64|
                #[trigger] self@.live.contains(b) ==> exists|k: int|
                    0 <= k < r@.len() && r@[k] == b,
    {
        world_live_ids(&self.world)
    }

    /// How many entities are live.
    pub fn len(&self) -> (r: u32)
        requires
            self.inv(),
        ensures
            r as nat == self@.live.len(),
    {
        world_len(&self.world)
    }

    /// Remove an entity and all its components; report whether it was
    /// live.
    pub fn despawn(&mut self, b: u64) -> (ok: bool)
        requires
            old(self).inv(),
        ensures
            final(self).inv(),
            ok == old(self)@.live.contains(b),
            final(self)@ == (StoreView {
                live: old(self)@.live.remove(b),
                pos: old(self)@.pos.remove(b),
                vel: old(self)@.vel.remove(b),
                render: old(self)@.render.remove(b),
                camera_anchor: old(self)@.camera_anchor.remove(b),
                player: old(self)@.player.remove(b),
                collider: old(self)@.collider.remove(b),
                tile_map: old(self)@.tile_map.remove(b),
            }),
    {
        proof {
            vstd::set_lib::lemma_len_subset(old(self)@.live.remove(b), old(self)@.live);
        }
        world_despawn(&mut self.world, b)
    }

    /// Put this kind's component on a live entity, replacing any previous
    /// value of the same kind; report whether the entity was live.
    pub fn insert_pos(&mut self, b: u64, c: Pos) -> (ok: bool)
        requires
            old(self).inv(),
        ensures
            final(self).inv(),
            ok == old(self)@.live.contains(b),
            ok ==> final(self)@ == (StoreView {
                pos: old(self)@.pos.insert(b, c),
                ..old(self)@
            }),
            !ok ==> final(self)@ == old(self)@,
    {
        world_insert_pos(&mut self.world, b, c)
    }

    /// This kind's component of an entity, if the entity is live and has
    /// one; a copy of the stored value.
    pub fn get_pos(&self, b: u64) -> (r: Option<Pos>)
        ensures
            match r {
                Some(c) => self@.pos.contains_pair(b, c),
                None => !self@.pos.dom().contains(b),
            },
    {
        world_get_pos(&self.world, b)
    }

    /// Remove this kind's component from an entity, if present.
    pub fn remove_pos(&mut self, b: u64)
        requires
            old(self).inv(),
        ensures
            final(self).inv(),
            final(self)@ == (StoreView { pos: old(self)@.pos.remove(b), ..old(self)@ }),
    {
        world_remove_pos(&mut self.world, b)
    }

    /// Put this kind's component on a live entity, replacing any previous
    /// value of the same kind; report whether the entity was live.
    pub fn insert_vel(&mut self, b: u64, c: Vel) -> (ok: bool)
        requires
            old(self).inv(),
        ensures
            final(self).inv(),
            ok == old(self)@.live.contains(b),
            ok ==> final(self)@ == (StoreView {
                vel: old(self)@.vel.insert(b, c),
                ..old(self)@
            }),
            !ok ==> final(self)@ == old(self)@,
    {
        world_insert_vel(&mut self.world, b, c)
    }

    /// This kind's component of an entity, if the entity is live and has
    /// one; a copy of the stored value.
    pub fn get_vel(&self, b: u64) -> (r: Option<Vel>)
        ensures
            match r {
                Some(c) => self@.vel.contains_pair(b, c),
                None => !self@.vel.dom().contains(b),
            },
    {
        world_get_vel(&self.world, b)
    }

    /// Remove this kind's component from an entity, if present.
    pub fn remove_vel(&mut self, b: u64)
        requires
            old(self).inv(),
        ensures
            final(self).inv(),
            final(self)@ == (StoreView { vel: old(self)@.vel.remove(b), ..old(self)@ }),
    {
        world_remove_vel(&mut self.world, b)
    }

    /// Put this kind's component on a live entity, replacing any previous
    /// value of the same kind; report whether the entity was live.
    pub fn insert_render(&mut self, b: u64, c: Render) -> (ok: bool)
        requires
            old(self).inv(),
        ensures
            final(self).inv(),
            ok == old(self)@.live.contains(b),
            ok ==> final(self)@ == (StoreView {
                render: old(self)@.render.insert(b, c),
                ..old(self)@
            }),
            !ok ==> final(self)@ == old(self)@,
    {
        world_insert_render(&mut self.world, b, c)
    }

    /// This kind's component of an entity, if the entity is live and has
    /// one; a copy of the stored value.
    pub fn get_render(&self, b: u64) -> (r: Option<Render>)
        ensures
            match r {
                Some(c) => self@.render.contains_pair(b, c),
                None => !self@.render.dom().contains(b),
            },
    {
        world_get_render(&self.world, b)
    }

    /// Remove this kind's component from an entity, if present.
    pub fn remove_render(&mut self, b: u64)
        requires
            old(self).inv(),
        ensures
            final(self).inv(),
            final(self)@ == (StoreView { render: old(self)@.render.remove(b), ..old(self)@ }),
    {
        world_remove_render(&mut self.world, b)
    }

    /// Put this kind's component on a live entity, replacing any previous
    /// value of the same kind; report whether the entity was live.
    pub fn insert_camera_anchor(&mut self, b: u64, c: CameraAnchor) -> (ok: bool)
        requires
            old(self).inv(),
        ensures
            final(self).inv(),
            ok == old(self)@.live.contains(b),
            ok ==> final(self)@ == (StoreView {
                camera_anchor: old(self)@.camera_anchor.insert(b, c),
                ..old(self)@
            }),
            !ok ==> final(self)@ == old(self)@,
    {
        world_insert_camera_anchor(&mut self.world, b, c)
    }

    /// This kind's component of an entity, if the entity is live and has
    /// one; a copy of the stored value.
    pub fn get_camera_anchor(&self, b: u64) -> (r: Option<CameraAnchor>)
        ensures
            match r {
                Some(c) => self@.camera_anchor.contains_pair(b, c),
                None => !self@.camera_anchor.dom().contains(b),
            },
    {
        world_get_camera_anchor(&self.world, b)
    }

    /// Remove this kind's component from an entity, if present.
    pub fn remove_camera_anchor(&mut self, b: u64)
        requires
            old(self).inv(),
        ensures
            final(self).inv(),
            final(self)@ == (StoreView { camera_anchor: old(self)@.camera_anchor.remove(b), ..old(self)@ }),
    {
        world_remove_camera_anchor(&mut self.world, b)
    }

    /// Put this kind's component on a live entity, replacing any previous
    /// value of the same kind; report whether the entity was live.
    pub fn insert_player(&mut self, b: u64, c: Player) -> (ok: bool)
        requires
            old(self).inv(),
        ensures
            final(self).inv(),
            ok == old(self)@.live.contains(b),
            ok ==> final(self)@ == (StoreView {
                player: old(self)@.player.insert(b, c),
                ..old(self)@
            }),
            !ok ==> final(self)@ == old(self)@,
    {
        world_insert_player(&mut self.world, b, c)
    }

    /// This kind's component of an entity, if the entity is live and has
    /// one; a copy of the stored value.
    pub fn get_player(&self, b: u64) -> (r: Option<Player>)
        ensures
            match r {
                Some(c) => self@.player.contains_pair(b, c),
                None => !self@.player.dom().contains(b),
            },
    {
        world_get_player(&self.world, b)
    }

    /// Remove this kind's component from an entity, if present.
    pub fn remove_player(&mut self, b: u64)
        requires
            old(self).inv(),
        ensures
            final(self).inv(),
            final(self)@ == (StoreView { player: old(self)@.player.remove(b), ..old(self)@ }),
    {
        world_remove_player(&mut self.world, b)
    }

    /// Put this kind's component on a live entity, replacing any previous
    /// value of the same kind; report whether the entity was live.
    pub fn insert_collider(&mut self, b: u64, c: Collider) -> (ok: bool)
        requires
            old(self).inv(),
        ensures
            final(self).inv(),
            ok == old(self)@.live.contains(b),
            ok ==> final(self)@ == (StoreView {
                collider: old(self)@.collider.insert(b, c),
                ..old(self)@
            }),
            !ok ==> final(self)@ == old(self)@,
    {
        world_insert_collider(&mut self.world, b, c)
    }

    /// This kind's component of an entity, if the entity is live and has
    /// one; a copy of the stored value.
    pub fn get_collider(&self, b: u64) -> (r: Option<Collider>)
        ensures
            match r {
                Some(c) => self@.collider.contains_pair(b, c),
                None => !self@.collider.dom().contains(b),
            },
    {
        world_get_collider(&self.world, b)
    }

    /// Remove this kind's component from an entity, if present.
    pub fn remove_collider(&mut self, b: u64)
        requires
            old(self).inv(),
        ensures
            final(self).inv(),
            final(self)@ == (StoreView { collider: old(self)@.collider.remove(b), ..old(self)@ }),
    {
        world_remove_collider(&mut self.world, b)
    }

    /// Put this kind's component on a live entity, replacing any previous
    /// value of the same kind; report whether the entity was live and the tile grid within the persistable bound.
    pub fn insert_tile_map(&mut self, b: u64, c: TileMap) -> (ok: bool)
        requires
            old(self).inv(),
        ensures
            final(self).inv(),
            ok == (old(self)@.live.contains(b) && c.tiles@.len() < 0x100000000),
            ok ==> final(self)@ == (StoreView {
                tile_map: old(self)@.tile_map.insert(b, c@),
                ..old(self)@
            }),
            !ok ==> final(self)@ == old(self)@,
    {
        if !((c.tiles.len() as u64) < 0x100000000) {
            return false;
        }
        world_insert_tile_map(&mut self.world, b, c)
    }

    /// This kind's component of an entity, if the entity is live and has
    /// one; a copy of the stored value.
    pub fn get_tile_map(&self, b: u64) -> (r: Option<TileMap>)
        ensures
            match r {
                Some(c) => self@.tile_map.contains_pair(b, c@),
                None => !self@.tile_map.dom().contains(b),
            },
    {
        world_get_tile_map(&self.world, b)
    }

    /// Remove this kind's component from an entity, if present.
    pub fn remove_tile_map(&mut self, b: u64)
        requires
            old(self).inv(),
        ensures
            final(self).inv(),
            final(self)@ == (StoreView { tile_map: old(self)@.tile_map.remove(b), ..old(self)@ }),
    {
        world_remove_tile_map(&mut self.world, b)
    }

    /// Spawn a new entity carrying a value copy of every component kind
    /// present on `src`; kinds absent on `src` stay absent.  A dead
    /// `src` yields an entity with no components.
    pub fn duplicate_entity(&mut self, src: u64) -> (nb: u64)
        requires
            old(self).inv(),
            old(self)@.live.len() < 0xffffffff,
        ensures
            final(self).inv(),
            !old(self)@.live.contains(nb),
            final(self)@.live == old(self)@.live.insert(nb),
            final(self)@.pos == if old(self)@.pos.dom().contains(src) {
                old(self)@.pos.insert(nb, old(self)@.pos[src])
            } else {
                old(self)@.pos
            },
            final(self)@.vel == if old(self)@.vel.dom().contains(src) {
                old(self)@.vel.insert(nb, old(self)@.vel[src])
            } else {
                old(self)@.vel
            },
            final(self)@.render == if old(self)@.render.dom().contains(src) {
                old(self)@.render.insert(nb, old(self)@.render[src])
            } else {
                old(self)@.render
            },
            final(self)@.camera_anchor == if old(self)@.camera_anchor.dom().contains(src) {
                old(self)@.camera_anchor.insert(nb, old(self)@.camera_anchor[src])
            } else {
                old(self)@.camera_anchor
            },
            final(self)@.player == if old(self)@.player.dom().contains(src) {
                old(self)@.player.insert(nb, old(self)@.player[src])
            } else {
                old(self)@.player
            },
            final(self)@.collider == if old(self)@.collider.dom().contains(src) {
                old(self)@.collider.insert(nb, old(self)@.collider[src])
            } else {
                old(self)@.collider
            },
            final(self)@.tile_map == if old(self)@.tile_map.dom().contains(src) {
                old(self)@.tile_map.insert(nb, old(self)@.tile_map[src])
            } else {
                old(self)@.tile_map
            },
    {
        let nb = self.spawn();
        if let Some(c) = self.get_pos(src) {
            self.insert_pos(nb, c);
        }
        if let Some(c) = self.get_vel(src) {
            self.insert_vel(nb, c);
        }
        if let Some(c) = self.get_render(src) {
            self.insert_render(nb, c);
        }
        if let Some(c) = self.get_camera_anchor(src) {
            self.insert_camera_anchor(nb, c);
        }
        if let Some(c) = self.get_player(src) {
            self.insert_player(nb, c);
        }
        if let Some(c) = self.get_collider(src) {
            self.insert_collider(nb, c);
        }
        if let Some(c) = self.get_tile_map(src) {
            self.insert_tile_map(nb, c);
        }
        nb
    }
}





// ---------------------------------------------------------------------
// saving
// ---------------------------------------------------------------------
/// Does a pair list hold exactly the entries of `mp`, each key once?
pub open spec fn list_represents<T>(l: Seq<(u64, T)>, mp: Map<u64, T>) -> bool {
    &&& forall|k: int| 0 <= k < l.len() ==> mp.contains_pair(#[trigger] l[k].0, l[k].1)
    &&& forall|k1: int, k2: int| 0 <= k1 < k2 < l.len() ==> l[k1].0 != l[k2].0
    &&& forall|b: u64|
        #[trigger] mp.dom().contains(b) ==> exists|k: int| 0 <= k < l.len() && l[k].0 == b
}

/// Does a scene hold exactly the components of a store view?
pub open spec fn scene_represents(m: SceneModel, v: StoreView) -> bool {
    &&& list_represents(m.pos, v.pos)
    &&& list_represents(m.vel, v.vel)
    &&& list_represents(m.render, v.render)
    &&& list_represents(m.camera_anchor, v.camera_anchor)
    &&& list_represents(m.player, v.player)
    &&& list_represents(m.collider, v.collider)
    &&& list_represents(m.tile_map, v.tile_map)
}

/// Serialize the whole store to its persisted byte payload: one pair per
/// live entity and component, kind by kind in declaration order.
pub fn save_scene(store: &Store) -> (r: Vec<u8>)
    requires
        store.inv(),
    ensures
        exists|m: SceneModel|
            {
                &&& #[trigger] scene_wf(m)
                &&& scene_represents(m, store@)
                &&& r@ == enc_scene(m)
            },
{
    let sc = Scene {
        pos: world_collect_pos(&store.world),
        vel: world_collect_vel(&store.world),
        render: world_collect_render(&store.world),
        camera_anchor: world_collect_camera_anchor(&store.world),
        player: world_collect_player(&store.world),
        collider: world_collect_collider(&store.world),
        tile_map: world_collect_tile_map(&store.world),
    };
    proof {
        assert forall|k: int| 0 <= k < sc@.tile_map.len() implies store@.tile_map.contains_pair(
            #[trigger] sc@.tile_map[k].0,
            sc@.tile_map[k].1,
        ) by {
            assert(sc@.tile_map[k] == (sc.tile_map@[k].0, sc.tile_map@[k].1@));
        }
        assert forall|k: int| 0 <= k < sc@.tile_map.len() implies (
        #[trigger] sc@.tile_map[k]).1.tiles.len() < 0x100000000 by {
            assert(sc@.tile_map[k] == (sc.tile_map@[k].0, sc.tile_map@[k].1@));
            assert(store@.tile_map.contains_pair(sc@.tile_map[k].0, sc@.tile_map[k].1));
        }
        assert forall|b: u64| #[trigger] store@.tile_map.dom().contains(b) implies exists|k: int|
            0 <= k < sc@.tile_map.len() && sc@.tile_map[k].0 == b by {
            let k0 = choose|k: int|
                0 <= k < sc.tile_map@.len() && sc.tile_map@[k].0 == b;
            assert(sc@.tile_map[k0] == (sc.tile_map@[k0].0, sc.tile_map@[k0].1@));
            assert(0 <= k0 < sc@.tile_map.len() && sc@.tile_map[k0].0 == b);
        }
        assert forall|k1: int, k2: int| 0 <= k1 < k2 < sc@.tile_map.len() implies sc@.tile_map[k1].0
            != sc@.tile_map[k2].0 by {
            assert(sc@.tile_map[k1] == (sc.tile_map@[k1].0, sc.tile_map@[k1].1@));
            assert(sc@.tile_map[k2] == (sc.tile_map@[k2].0, sc.tile_map@[k2].1@));
        }
        assert(scene_wf(sc@));
        assert(scene_represents(sc@, store@));
    }
    encode_scene(&sc)
}

// ---------------------------------------------------------------------
// loading
// ---------------------------------------------------------------------
/// The map of a pair list, later entries overriding earlier ones.
pub open spec fn pairs_to_map<T>(l: Seq<(u64, T)>) -> Map<u64, T>
    decreases l.len(),
{
    if l.len() == 0 {
        Map::empty()
    } else {
        pairs_to_map(l.drop_last()).insert(l.last().0, l.last().1)
    }
}

/// The map of a pair list is finite and keyed by exactly the listed ids.
pub proof fn lemma_ptm_dom<T>(l: Seq<(u64, T)>)
    ensures
        pairs_to_map(l).dom().finite(),
        forall|b: u64|
            #[trigger] pairs_to_map(l).dom().contains(b) <==> exists|k: int|
                0 <= k < l.len() && #[trigger] l[k].0 == b,
    decreases l.len(),
{
    if l.len() == 0 {
    } else {
        lemma_ptm_dom(l.drop_last());
        assert forall|b: u64| #[trigger] pairs_to_map(l).dom().contains(b) implies exists|k: int|
            0 <= k < l.len() && #[trigger] l[k].0 == b by {
            if b == l.last().0 {
                assert(l[l.len() - 1].0 == b);
            } else {
                let k0 = choose|k: int|
                    0 <= k < l.drop_last().len() && #[trigger] l.drop_last()[k].0 == b;
                assert(l[k0].0 == b);
            }
        }
        assert forall|b: u64|
            (exists|k: int| 0 <= k < l.len() && #[trigger] l[k].0 == b) implies #[trigger] pairs_to_map(
            l,
        ).dom().contains(b) by {
            let k0 = choose|k: int| 0 <= k < l.len() && #[trigger] l[k].0 == b;
            if k0 == l.len() - 1 {
            } else {
                assert(l.drop_last()[k0].0 == b);
            }
        }
    }
}

/// Extending a pair list by one entry updates its map at that id.
pub proof fn lemma_ptm_take_step<T>(l: Seq<(u64, T)>, k: int)
    requires
        0 <= k < l.len(),
    ensures
        pairs_to_map(l.take(k + 1)) == pairs_to_map(l.take(k)).insert(l[k].0, l[k].1),
{
    assert(l.take(k + 1).drop_last() =~= l.take(k));
    assert(l.take(k + 1).last() == l[k]);
}

/// No two distinct persisted ids map to the same new entity.
pub open spec fn injective(phi: Map<u64, u64>) -> bool {
    forall|a: u64, b: u64|
        phi.dom().contains(a) && phi.dom().contains(b) && #[trigger] phi[a] == #[trigger] phi[b]
            ==> a == b
}

/// The set of entities that `phi` maps to.
pub open spec fn img(phi: Map<u64, u64>) -> Set<u64> {
    Set::new(|nb: u64| exists|id: u64| #[trigger] phi.dom().contains(id) && phi[id] == nb)
}

/// The remap table is injective and accounts for exactly the live set.
pub open spec fn phi_ok(phi: Map<u64, u64>, v: StoreView) -> bool {
    &&& injective(phi)
    &&& phi.dom().finite()
    &&& phi.dom().len() <= 0xffffffff
    &&& v.live == img(phi)
    &&& phi.dom().len() == v.live.len()
}

/// One kind's pair list, replayed through the remap table: the store map
/// holds exactly the listed values at the remapped ids, later entries
/// having overridden earlier ones.
pub open spec fn kind_applied<T>(l: Seq<(u64, T)>, phi: Map<u64, u64>, mp: Map<u64, T>) -> bool {
    let pm = pairs_to_map(l);
    &&& forall|id: u64|
        #[trigger] pm.dom().contains(id) ==> phi.dom().contains(id) && mp.dom().contains(phi[id])
            && mp[phi[id]] == pm[id]
    &&& forall|nb: u64|
        #[trigger] mp.dom().contains(nb) ==> exists|id: u64|
            #[trigger] pm.dom().contains(id) && phi.dom().contains(id) && phi[id] == nb
}

/// A grown remap table replays a list the same way.
pub proof fn lemma_kind_applied_mono<T>(
    l: Seq<(u64, T)>,
    phi1: Map<u64, u64>,
    phi2: Map<u64, u64>,
    mp: Map<u64, T>,
)
    requires
        kind_applied(l, phi1, mp),
        phi1.dom() <= phi2.dom(),
        forall|id: u64| #[trigger] phi1.dom().contains(id) ==> phi2[id] == phi1[id],
    ensures
        kind_applied(l, phi2, mp),
{
    let pm = pairs_to_map(l);
    assert forall|nb: u64| #[trigger] mp.dom().contains(nb) implies exists|id: u64|
        #[trigger] pm.dom().contains(id) && phi2.dom().contains(id) && phi2[id] == nb by {
        let id0 = choose|id: u64|
            #[trigger] pm.dom().contains(id) && phi1.dom().contains(id) && phi1[id] == nb;
        assert(pm.dom().contains(id0) && phi2.dom().contains(id0) && phi2[id0] == nb);
    }
}

/// Every persisted id a scene mentions, in any kind.
pub open spec fn scene_ids(m: SceneModel) -> Set<u64> {
    pairs_to_map(m.pos).dom().union(pairs_to_map(m.vel).dom()).union(
        pairs_to_map(m.render).dom(),
    ).union(pairs_to_map(m.camera_anchor).dom()).union(pairs_to_map(m.player).dom()).union(
        pairs_to_map(m.collider).dom(),
    ).union(pairs_to_map(m.tile_map).dom())
}

/// A freshly loaded store: a fresh entity per persisted id, carrying
/// exactly the scene's components under the remap table.
pub open spec fn scene_applied(m: SceneModel, phi: Map<u64, u64>, v: StoreView) -> bool {
    &&& injective(phi)
    &&& phi.dom() == scene_ids(m)
    &&& v.live == img(phi)
    &&& kind_applied(m.pos, phi, v.pos)
    &&& kind_applied(m.vel, phi, v.vel)
    &&& kind_applied(m.render, phi, v.render)
    &&& kind_applied(m.camera_anchor, phi, v.camera_anchor)
    &&& kind_applied(m.player, phi, v.player)
    &&& kind_applied(m.collider, phi, v.collider)
    &&& kind_applied(m.tile_map, phi, v.tile_map)
}


/// Replay one kind's pair list into the store, spawning an entity for
/// each id met for the first time.  Reports failure only when the ids
/// outgrow the store's entity space.
#[verifier::rlimit(100)]
#[verifier::spinoff_prover]
fn load_pos_list(
    store: &mut Store,
    id_map: &mut std::collections::HashMap<u64, u64>,
    l: Vec<(u64, Pos)>,
    Ghost(lv0): Ghost<Seq<(u64, Pos)>>,
) -> (ok: bool)
    requires
        old(store).inv(),
        phi_ok(old(id_map)@, old(store)@),
        old(store)@.pos == Map::<u64, Pos>::empty(),
        lv0 == l@,
    ensures
        final(store).inv(),
        phi_ok(final(id_map)@, final(store)@),
        old(id_map)@.dom() <= final(id_map)@.dom(),
        forall|id: u64|
            #[trigger] old(id_map)@.dom().contains(id) ==> final(id_map)@[id] == old(id_map)@[id],
            final(store)@.vel == old(store)@.vel,
            final(store)@.render == old(store)@.render,
            final(store)@.camera_anchor == old(store)@.camera_anchor,
            final(store)@.player == old(store)@.player,
            final(store)@.collider == old(store)@.collider,
            final(store)@.tile_map == old(store)@.tile_map,
        ok ==> final(id_map)@.dom() =~= old(id_map)@.dom().union(pairs_to_map(lv0).dom()),
        ok ==> kind_applied(lv0, final(id_map)@, final(store)@.pos),
        !ok ==> old(id_map)@.dom().union(pairs_to_map(lv0).dom()).len() >= 0x100000000,
{
    let ghost lv = lv0;
    let ghost phi0 = id_map@;
    let mut rest = l;
    let total = rest.len();
    let mut k: usize = 0;
    proof {
        lemma_ptm_dom(lv);
        assert(lv.take(0) =~= Seq::<(u64, Pos)>::empty());
        assert(phi0.dom().union(pairs_to_map(lv.take(0)).dom()) =~= phi0.dom());
        assert(rest@ =~= lv.subrange(0, lv.len() as int)) by {
            assert(lv.subrange(0, lv.len() as int) =~= lv);
        }
    }
    while rest.len() > 0
        invariant
            store.inv(),
            phi_ok(id_map@, store@),
            lv == lv0,
            lv.len() <= usize::MAX,
            phi0 == old(id_map)@,
            k + rest@.len() == lv.len(),
            rest@ =~= lv.subrange(k as int, lv.len() as int),
            phi0.dom().finite(),
            phi0.dom() <= id_map@.dom(),
            forall|id: u64| #[trigger] phi0.dom().contains(id) ==> id_map@[id] == phi0[id],
            id_map@.dom() =~= phi0.dom().union(pairs_to_map(lv.take(k as int)).dom()),
            kind_applied(lv.take(k as int), id_map@, store@.pos),

            store@.vel == old(store)@.vel,
            store@.render == old(store)@.render,
            store@.camera_anchor == old(store)@.camera_anchor,
            store@.player == old(store)@.player,
            store@.collider == old(store)@.collider,
            store@.tile_map == old(store)@.tile_map,
        decreases rest@.len(),
    {
        let ghost phik = id_map@;
        let ghost mpk = store@.pos;
        let ghost restp = rest@;
        let (id, c) = rest.remove(0);
        proof {
            assert(restp[0] == (id, c));
            assert(lv[k as int] == (id, c));
            lemma_ptm_take_step(lv, k as int);
            lemma_ptm_dom(lv.take(k as int));
            lemma_ptm_dom(lv.take(k as int + 1));
            assert(rest@ =~= lv.subrange(k as int + 1, lv.len() as int));
        }
        let nb: u64;
        let existing = id_map.get(&id);
        if existing.is_some() {
            nb = *existing.unwrap();
            proof {
                assert(id_map@.contains_pair(id, nb));
                assert(img(id_map@).contains(nb));
            }
        } else {
            proof {
                assert(!id_map@.dom().contains(id));
            }
            if store.len() >= 0xffffffff {
                proof {
                    lemma_ptm_dom(lv);
                    assert(id_map@.dom().len() >= 0xffffffff);
                    assert(lv[k as int].0 == id);
                    assert(pairs_to_map(lv).dom().contains(id));
                    let big = phi0.dom().union(pairs_to_map(lv).dom());
                    assert(big.finite());
                    assert(id_map@.dom() <= big);
                    assert(!id_map@.dom().contains(id) && big.contains(id));
                    assert(id_map@.dom().insert(id) <= big);
                    assert(id_map@.dom().insert(id).len() == id_map@.dom().len() + 1);
                    vstd::set_lib::lemma_len_subset(id_map@.dom().insert(id), big);
                }
                return false;
            }
            nb = store.spawn();
            id_map.insert(id, nb);
            proof {
                assert(!img(phik).contains(nb));
                assert(id_map@ == phik.insert(id, nb));
                assert forall|a: u64, b: u64|
                    id_map@.dom().contains(a) && id_map@.dom().contains(b) && #[trigger] id_map@[a]
                        == #[trigger] id_map@[b] implies a == b by {
                    if a != id && b != id {
                        assert(phik[a] == phik[b]);
                    } else if a == id && b != id {
                        assert(img(phik).contains(phik[b]));
                    } else if a != id && b == id {
                        assert(img(phik).contains(phik[a]));
                    }
                }
                assert(img(id_map@) =~= img(phik).insert(nb)) by {
                    assert forall|q: u64| img(id_map@).contains(q) implies img(phik).insert(
                        nb,
                    ).contains(q) by {
                        let w0 = choose|w: u64|
                            #[trigger] id_map@.dom().contains(w) && id_map@[w] == q;
                        if w0 != id {
                            assert(phik.dom().contains(w0) && phik[w0] == q);
                        }
                    }
                    assert forall|q: u64| img(phik).insert(nb).contains(q) implies img(
                        id_map@,
                    ).contains(q) by {
                        if q == nb {
                            assert(id_map@.dom().contains(id) && id_map@[id] == nb);
                        } else {
                            let w0 = choose|w: u64|
                                #[trigger] phik.dom().contains(w) && phik[w] == q;
                            assert(id_map@.dom().contains(w0) && id_map@[w0] == q);
                        }
                    }
                }
                assert(id_map@.dom() =~= phik.dom().insert(id));
                lemma_kind_applied_mono(lv.take(k as int), phik, id_map@, store@.pos);
            }
        }
        proof {
            assert(store@.live.contains(nb));
        }
        let inserted = store.insert_pos(nb, c);
        proof {
            assert(inserted);
            let phin = id_map@;
            let mpn = store@.pos;
            assert(mpn == mpk.insert(nb, c));
            assert(pairs_to_map(lv.take(k as int + 1)) == pairs_to_map(lv.take(k as int)).insert(
                id,
                c,
            ));
            assert forall|id2: u64|
                #[trigger] pairs_to_map(lv.take(k as int + 1)).dom().contains(id2) implies phin.dom().contains(
                id2,
            ) && mpn.dom().contains(phin[id2]) && mpn[phin[id2]] == pairs_to_map(
                lv.take(k as int + 1),
            )[id2] by {
                if id2 == id {
                } else {
                    assert(pairs_to_map(lv.take(k as int)).dom().contains(id2));
                    assert(phin.dom().contains(id2) && mpk.dom().contains(phin[id2]));
                    if phin[id2] == nb {
                        assert(phin[id2] == phin[id]);
                        assert(id2 == id);
                    }
                }
            }
            assert forall|o: u64| #[trigger] mpn.dom().contains(o) implies exists|id2: u64|
                #[trigger] pairs_to_map(lv.take(k as int + 1)).dom().contains(id2)
                    && phin.dom().contains(id2) && phin[id2] == o by {
                if o == nb {
                    assert(pairs_to_map(lv.take(k as int + 1)).dom().contains(id)
                        && phin.dom().contains(id) && phin[id] == o);
                } else {
                    assert(mpk.dom().contains(o));
                    let id2 = choose|id2: u64|
                        #[trigger] pairs_to_map(lv.take(k as int)).dom().contains(id2)
                            && phik.dom().contains(id2) && phik[id2] == o;
                    assert(pairs_to_map(lv.take(k as int + 1)).dom().contains(id2)
                        && phin.dom().contains(id2) && phin[id2] == o);
                }
            }
            assert(kind_applied(lv.take(k as int + 1), id_map@, store@.pos));
            assert(id_map@.dom() =~= phi0.dom().union(pairs_to_map(lv.take(k as int + 1)).dom()));
        }
        k = k + 1;
    }
    proof {
        assert(lv.take(lv.len() as int) =~= lv);
    }
    true
}


/// Replay one kind's pair list into the store, spawning an entity for
/// each id met for the first time.  Reports failure only when the ids
/// outgrow the store's entity space.
#[verifier::rlimit(100)]
#[verifier::spinoff_prover]
fn load_vel_list(
    store: &mut Store,
    id_map: &mut std::collections::HashMap<u64, u64>,
    l: Vec<(u64, Vel)>,
    Ghost(lv0): Ghost<Seq<(u64, Vel)>>,
) -> (ok: bool)
    requires
        old(store).inv(),
        phi_ok(old(id_map)@, old(store)@),
        old(store)@.vel == Map::<u64, Vel>::empty(),
        lv0 == l@,
    ensures
        final(store).inv(),
        phi_ok(final(id_map)@, final(store)@),
        old(id_map)@.dom() <= final(id_map)@.dom(),
        forall|id: u64|
            #[trigger] old(id_map)@.dom().contains(id) ==> final(id_map)@[id] == old(id_map)@[id],
            final(store)@.pos == old(store)@.pos,
            final(store)@.render == old(store)@.render,
            final(store)@.camera_anchor == old(store)@.camera_anchor,
            final(store)@.player == old(store)@.player,
            final(store)@.collider == old(store)@.collider,
            final(store)@.tile_map == old(store)@.tile_map,
        ok ==> final(id_map)@.dom() =~= old(id_map)@.dom().union(pairs_to_map(lv0).dom()),
        ok ==> kind_applied(lv0, final(id_map)@, final(store)@.vel),
        !ok ==> old(id_map)@.dom().union(pairs_to_map(lv0).dom()).len() >= 0x100000000,
{
    let ghost lv = lv0;
    let ghost phi0 = id_map@;
    let mut rest = l;
    let total = rest.len();
    let mut k: usize = 0;
    proof {
        lemma_ptm_dom(lv);
        assert(lv.take(0) =~= Seq::<(u64, Vel)>::empty());
        assert(phi0.dom().union(pairs_to_map(lv.take(0)).dom()) =~= phi0.dom());
        assert(rest@ =~= lv.subrange(0, lv.len() as int)) by {
            assert(lv.subrange(0, lv.len() as int) =~= lv);
        }
    }
    while rest.len() > 0
        invariant
            store.inv(),
            phi_ok(id_map@, store@),
            lv == lv0,
            lv.len() <= usize::MAX,
            phi0 == old(id_map)@,
            k + rest@.len() == lv.len(),
            rest@ =~= lv.subrange(k as int, lv.len() as int),
            phi0.dom().finite(),
            phi0.dom() <= id_map@.dom(),
            forall|id: u64| #[trigger] phi0.dom().contains(id) ==> id_map@[id] == phi0[id],
            id_map@.dom() =~= phi0.dom().union(pairs_to_map(lv.take(k as int)).dom()),
            kind_applied(lv.take(k as int), id_map@, store@.vel),

            store@.pos == old(store)@.pos,
            store@.render == old(store)@.render,
            store@.camera_anchor == old(store)@.camera_anchor,
            store@.player == old(store)@.player,
            store@.collider == old(store)@.collider,
            store@.tile_map == old(store)@.tile_map,
        decreases rest@.len(),
    {
        let ghost phik = id_map@;
        let ghost mpk = store@.vel;
        let ghost restp = rest@;
        let (id, c) = rest.remove(0);
        proof {
            assert(restp[0] == (id, c));
            assert(lv[k as int] == (id, c));
            lemma_ptm_take_step(lv, k as int);
            lemma_ptm_dom(lv.take(k as int));
            lemma_ptm_dom(lv.take(k as int + 1));
            assert(rest@ =~= lv.subrange(k as int + 1, lv.len() as int));
        }
        let nb: u64;
        let existing = id_map.get(&id);
        if existing.is_some() {
            nb = *existing.unwrap();
            proof {
                assert(id_map@.contains_pair(id, nb));
                assert(img(id_map@).contains(nb));
            }
        } else {
            proof {
                assert(!id_map@.dom().contains(id));
            }
            if store.len() >= 0xffffffff {
                proof {
                    lemma_ptm_dom(lv);
                    assert(id_map@.dom().len() >= 0xffffffff);
                    assert(lv[k as int].0 == id);
                    assert(pairs_to_map(lv).dom().contains(id));
                    let big = phi0.dom().union(pairs_to_map(lv).dom());
                    assert(big.finite());
                    assert(id_map@.dom() <= big);
                    assert(!id_map@.dom().contains(id) && big.contains(id));
                    assert(id_map@.dom().insert(id) <= big);
                    assert(id_map@.dom().insert(id).len() == id_map@.dom().len() + 1);
                    vstd::set_lib::lemma_len_subset(id_map@.dom().insert(id), big);
                }
                return false;
            }
            nb = store.spawn();
            id_map.insert(id, nb);
            proof {
                assert(!img(phik).contains(nb));
                assert(id_map@ == phik.insert(id, nb));
                assert forall|a: u64, b: u64|
                    id_map@.dom().contains(a) && id_map@.dom().contains(b) && #[trigger] id_map@[a]
                        == #[trigger] id_map@[b] implies a == b by {
                    if a != id && b != id {
                        assert(phik[a] == phik[b]);
                    } else if a == id && b != id {
                        assert(img(phik).contains(phik[b]));
                    } else if a != id && b == id {
                        assert(img(phik).contains(phik[a]));
                    }
                }
                assert(img(id_map@) =~= img(phik).insert(nb)) by {
                    assert forall|q: u64| img(id_map@).contains(q) implies img(phik).insert(
                        nb,
                    ).contains(q) by {
                        let w0 = choose|w: u64|
                            #[trigger] id_map@.dom().contains(w) && id_map@[w] == q;
                        if w0 != id {
                            assert(phik.dom().contains(w0) && phik[w0] == q);
                        }
                    }
                    assert forall|q: u64| img(phik).insert(nb).contains(q) implies img(
                        id_map@,
                    ).contains(q) by {
                        if q == nb {
                            assert(id_map@.dom().contains(id) && id_map@[id] == nb);
                        } else {
                            let w0 = choose|w: u64|
                                #[trigger] phik.dom().contains(w) && phik[w] == q;
                            assert(id_map@.dom().contains(w0) && id_map@[w0] == q);
                        }
                    }
                }
                assert(id_map@.dom() =~= phik.dom().insert(id));
                lemma_kind_applied_mono(lv.take(k as int), phik, id_map@, store@.vel);
            }
        }
        proof {
            assert(store@.live.contains(nb));
        }
        let inserted = store.insert_vel(nb, c);
        proof {
            assert(inserted);
            let phin = id_map@;
            let mpn = store@.vel;
            assert(mpn == mpk.insert(nb, c));
            assert(pairs_to_map(lv.take(k as int + 1)) == pairs_to_map(lv.take(k as int)).insert(
                id,
                c,
            ));
            assert forall|id2: u64|
                #[trigger] pairs_to_map(lv.take(k as int + 1)).dom().contains(id2) implies phin.dom().contains(
                id2,
            ) && mpn.dom().contains(phin[id2]) && mpn[phin[id2]] == pairs_to_map(
                lv.take(k as int + 1),
            )[id2] by {
                if id2 == id {
                } else {
                    assert(pairs_to_map(lv.take(k as int)).dom().contains(id2));
                    assert(phin.dom().contains(id2) && mpk.dom().contains(phin[id2]));
                    if phin[id2] == nb {
                        assert(phin[id2] == phin[id]);
                        assert(id2 == id);
                    }
                }
            }
            assert forall|o: u64| #[trigger] mpn.dom().contains(o) implies exists|id2: u64|
                #[trigger] pairs_to_map(lv.take(k as int + 1)).dom().contains(id2)
                    && phin.dom().contains(id2) && phin[id2] == o by {
                if o == nb {
                    assert(pairs_to_map(lv.take(k as int + 1)).dom().contains(id)
                        && phin.dom().contains(id) && phin[id] == o);
                } else {
                    assert(mpk.dom().contains(o));
                    let id2 = choose|id2: u64|
                        #[trigger] pairs_to_map(lv.take(k as int)).dom().contains(id2)
                            && phik.dom().contains(id2) && phik[id2] == o;
                    assert(pairs_to_map(lv.take(k as int + 1)).dom().contains(id2)
                        && phin.dom().contains(id2) && phin[id2] == o);
                }
            }
            assert(kind_applied(lv.take(k as int + 1), id_map@, store@.vel));
            assert(id_map@.dom() =~= phi0.dom().union(pairs_to_map(lv.take(k as int + 1)).dom()));
        }
        k = k + 1;
    }
    proof {
        assert(lv.take(lv.len() as int) =~= lv);
    }
    true
}


/// Replay one kind's pair list into the store, spawning an entity for
/// each id met for the first time.  Reports failure only when the ids
/// outgrow the store's entity space.
#[verifier::rlimit(100)]
#[verifier::spinoff_prover]
fn load_render_list(
    store: &mut Store,
    id_map: &mut std::collections::HashMap<u64, u64>,
    l: Vec<(u64, Render)>,
    Ghost(lv0): Ghost<Seq<(u64, Render)>>,
) -> (ok: bool)
    requires
        old(store).inv(),
        phi_ok(old(id_map)@, old(store)@),
        old(store)@.render == Map::<u64, Render>::empty(),
        lv0 == l@,
    ensures
        final(store).inv(),
        phi_ok(final(id_map)@, final(store)@),
        old(id_map)@.dom() <= final(id_map)@.dom(),
        forall|id: u64|
            #[trigger] old(id_map)@.dom().contains(id) ==> final(id_map)@[id] == old(id_map)@[id],
            final(store)@.pos == old(store)@.pos,
            final(store)@.vel == old(store)@.vel,
            final(store)@.camera_anchor == old(store)@.camera_anchor,
            final(store)@.player == old(store)@.player,
            final(store)@.collider == old(store)@.collider,
            final(store)@.tile_map == old(store)@.tile_map,
        ok ==> final(id_map)@.dom() =~= old(id_map)@.dom().union(pairs_to_map(lv0).dom()),
        ok ==> kind_applied(lv0, final(id_map)@, final(store)@.render),
        !ok ==> old(id_map)@.dom().union(pairs_to_map(lv0).dom()).len() >= 0x100000000,
{
    let ghost lv = lv0;
    let ghost phi0 = id_map@;
    let mut rest = l;
    let total = rest.len();
    let mut k: usize = 0;
    proof {
        lemma_ptm_dom(lv);
        assert(lv.take(0) =~= Seq::<(u64, Render)>::empty());
        assert(phi0.dom().union(pairs_to_map(lv.take(0)).dom()) =~= phi0.dom());
        assert(rest@ =~= lv.subrange(0, lv.len() as int)) by {
            assert(lv.subrange(0, lv.len() as int) =~= lv);
        }
    }
    while rest.len() > 0
        invariant
            store.inv(),
            phi_ok(id_map@, store@),
            lv == lv0,
            lv.len() <= usize::MAX,
            phi0 == old(id_map)@,
            k + rest@.len() == lv.len(),
            rest@ =~= lv.subrange(k as int, lv.len() as int),
            phi0.dom().finite(),
            phi0.dom() <= id_map@.dom(),
            forall|id: u64| #[trigger] phi0.dom().contains(id) ==> id_map@[id] == phi0[id],
            id_map@.dom() =~= phi0.dom().union(pairs_to_map(lv.take(k as int)).dom()),
            kind_applied(lv.take(k as int), id_map@, store@.render),

            store@.pos == old(store)@.pos,
            store@.vel == old(store)@.vel,
            store@.camera_anchor == old(store)@.camera_anchor,
            store@.player == old(store)@.player,
            store@.collider == old(store)@.collider,
            store@.tile_map == old(store)@.tile_map,
        decreases rest@.len(),
    {
        let ghost phik = id_map@;
        let ghost mpk = store@.render;
        let ghost restp = rest@;
        let (id, c) = rest.remove(0);
        proof {
            assert(restp[0] == (id, c));
            assert(lv[k as int] == (id, c));
            lemma_ptm_take_step(lv, k as int);
            lemma_ptm_dom(lv.take(k as int));
            lemma_ptm_dom(lv.take(k as int + 1));
            assert(rest@ =~= lv.subrange(k as int + 1, lv.len() as int));
        }
        let nb: u64;
        let existing = id_map.get(&id);
        if existing.is_some() {
            nb = *existing.unwrap();
            proof {
                assert(id_map@.contains_pair(id, nb));
                assert(img(id_map@).contains(nb));
            }
        } else {
            proof {
                assert(!id_map@.dom().contains(id));
            }
            if store.len() >= 0xffffffff {
                proof {
                    lemma_ptm_dom(lv);
                    assert(id_map@.dom().len() >= 0xffffffff);
                    assert(lv[k as int].0 == id);
                    assert(pairs_to_map(lv).dom().contains(id));
                    let big = phi0.dom().union(pairs_to_map(lv).dom());
                    assert(big.finite());
                    assert(id_map@.dom() <= big);
                    assert(!id_map@.dom().contains(id) && big.contains(id));
                    assert(id_map@.dom().insert(id) <= big);
                    assert(id_map@.dom().insert(id).len() == id_map@.dom().len() + 1);
                    vstd::set_lib::lemma_len_subset(id_map@.dom().insert(id), big);
                }
                return false;
            }
            nb = store.spawn();
            id_map.insert(id, nb);
            proof {
                assert(!img(phik).contains(nb));
                assert(id_map@ == phik.insert(id, nb));
                assert forall|a: u64, b: u64|
                    id_map@.dom().contains(a) && id_map@.dom().contains(b) && #[trigger] id_map@[a]
                        == #[trigger] id_map@[b] implies a == b by {
                    if a != id && b != id {
                        assert(phik[a] == phik[b]);
                    } else if a == id && b != id {
                        assert(img(phik).contains(phik[b]));
                    } else if a != id && b == id {
                        assert(img(phik).contains(phik[a]));
                    }
                }
                assert(img(id_map@) =~= img(phik).insert(nb)) by {
                    assert forall|q: u64| img(id_map@).contains(q) implies img(phik).insert(
                        nb,
                    ).contains(q) by {
                        let w0 = choose|w: u64|
                            #[trigger] id_map@.dom().contains(w) && id_map@[w] == q;
                        if w0 != id {
                            assert(phik.dom().contains(w0) && phik[w0] == q);
                        }
                    }
                    assert forall|q: u64| img(phik).insert(nb).contains(q) implies img(
                        id_map@,
                    ).contains(q) by {
                        if q == nb {
                            assert(id_map@.dom().contains(id) && id_map@[id] == nb);
                        } else {
                            let w0 = choose|w: u64|
                                #[trigger] phik.dom().contains(w) && phik[w] == q;
                            assert(id_map@.dom().contains(w0) && id_map@[w0] == q);
                        }
                    }
                }
                assert(id_map@.dom() =~= phik.dom().insert(id));
                lemma_kind_applied_mono(lv.take(k as int), phik, id_map@, store@.render);
            }
        }
        proof {
            assert(store@.live.contains(nb));
        }
        let inserted = store.insert_render(nb, c);
        proof {
            assert(inserted);
            let phin = id_map@;
            let mpn = store@.render;
            assert(mpn == mpk.insert(nb, c));
            assert(pairs_to_map(lv.take(k as int + 1)) == pairs_to_map(lv.take(k as int)).insert(
                id,
                c,
            ));
            assert forall|id2: u64|
                #[trigger] pairs_to_map(lv.take(k as int + 1)).dom().contains(id2) implies phin.dom().contains(
                id2,
            ) && mpn.dom().contains(phin[id2]) && mpn[phin[id2]] == pairs_to_map(
                lv.take(k as int + 1),
            )[id2] by {
                if id2 == id {
                } else {
                    assert(pairs_to_map(lv.take(k as int)).dom().contains(id2));
                    assert(phin.dom().contains(id2) && mpk.dom().contains(phin[id2]));
                    if phin[id2] == nb {
                        assert(phin[id2] == phin[id]);
                        assert(id2 == id);
                    }
                }
            }
            assert forall|o: u64| #[trigger] mpn.dom().contains(o) implies exists|id2: u64|
                #[trigger] pairs_to_map(lv.take(k as int + 1)).dom().contains(id2)
                    && phin.dom().contains(id2) && phin[id2] == o by {
                if o == nb {
                    assert(pairs_to_map(lv.take(k as int + 1)).dom().contains(id)
                        && phin.dom().contains(id) && phin[id] == o);
                } else {
                    assert(mpk.dom().contains(o));
                    let id2 = choose|id2: u64|
                        #[trigger] pairs_to_map(lv.take(k as int)).dom().contains(id2)
                            && phik.dom().contains(id2) && phik[id2] == o;
                    assert(pairs_to_map(lv.take(k as int + 1)).dom().contains(id2)
                        && phin.dom().contains(id2) && phin[id2] == o);
                }
            }
            assert(kind_applied(lv.take(k as int + 1), id_map@, store@.render));
            assert(id_map@.dom() =~= phi0.dom().union(pairs_to_map(lv.take(k as int + 1)).dom()));
        }
        k = k + 1;
    }
    proof {
        assert(lv.take(lv.len() as int) =~= lv);
    }
    true
}


/// Replay one kind's pair list into the store, spawning an entity for
/// each id met for the first time.  Reports failure only when the ids
/// outgrow the store's entity space.
#[verifier::rlimit(100)]
#[verifier::spinoff_prover]
fn load_camera_anchor_list(
    store: &mut Store,
    id_map: &mut std::collections::HashMap<u64, u64>,
    l: Vec<(u64, CameraAnchor)>,
    Ghost(lv0): Ghost<Seq<(u64, CameraAnchor)>>,
) -> (ok: bool)
    requires
        old(store).inv(),
        phi_ok(old(id_map)@, old(store)@),
        old(store)@.camera_anchor == Map::<u64, CameraAnchor>::empty(),
        lv0 == l@,
    ensures
        final(store).inv(),
        phi_ok(final(id_map)@, final(store)@),
        old(id_map)@.dom() <= final(id_map)@.dom(),
        forall|id: u64|
            #[trigger] old(id_map)@.dom().contains(id) ==> final(id_map)@[id] == old(id_map)@[id],
            final(store)@.pos == old(store)@.pos,
            final(store)@.vel == old(store)@.vel,
            final(store)@.render == old(store)@.render,
            final(store)@.player == old(store)@.player,
            final(store)@.collider == old(store)@.collider,
            final(store)@.tile_map == old(store)@.tile_map,
        ok ==> final(id_map)@.dom() =~= old(id_map)@.dom().union(pairs_to_map(lv0).dom()),
        ok ==> kind_applied(lv0, final(id_map)@, final(store)@.camera_anchor),
        !ok ==> old(id_map)@.dom().union(pairs_to_map(lv0).dom()).len() >= 0x100000000,
{
    let ghost lv = lv0;
    let ghost phi0 = id_map@;
    let mut rest = l;
    let total = rest.len();
    let mut k: usize = 0;
    proof {
        lemma_ptm_dom(lv);
        assert(lv.take(0) =~= Seq::<(u64, CameraAnchor)>::empty());
        assert(phi0.dom().union(pairs_to_map(lv.take(0)).dom()) =~= phi0.dom());
        assert(rest@ =~= lv.subrange(0, lv.len() as int)) by {
            assert(lv.subrange(0, lv.len() as int) =~= lv);
        }
    }
    while rest.len() > 0
        invariant
            store.inv(),
            phi_ok(id_map@, store@),
            lv == lv0,
            lv.len() <= usize::MAX,
            phi0 == old(id_map)@,
            k + rest@.len() == lv.len(),
            rest@ =~= lv.subrange(k as int, lv.len() as int),
            phi0.dom().finite(),
            phi0.dom() <= id_map@.dom(),
            forall|id: u64| #[trigger] phi0.dom().contains(id) ==> id_map@[id] == phi0[id],
            id_map@.dom() =~= phi0.dom().union(pairs_to_map(lv.take(k as int)).dom()),
            kind_applied(lv.take(k as int), id_map@, store@.camera_anchor),

            store@.pos == old(store)@.pos,
            store@.vel == old(store)@.vel,
            store@.render == old(store)@.render,
            store@.player == old(store)@.player,
            store@.collider == old(store)@.collider,
            store@.tile_map == old(store)@.tile_map,
        decreases rest@.len(),
    {
        let ghost phik = id_map@;
        let ghost mpk = store@.camera_anchor;
        let ghost restp = rest@;
        let (id, c) = rest.remove(0);
        proof {
            assert(restp[0] == (id, c));
            assert(lv[k as int] == (id, c));
            lemma_ptm_take_step(lv, k as int);
            lemma_ptm_dom(lv.take(k as int));
            lemma_ptm_dom(lv.take(k as int + 1));
            assert(rest@ =~= lv.subrange(k as int + 1, lv.len() as int));
        }
        let nb: u64;
        let existing = id_map.get(&id);
        if existing.is_some() {
            nb = *existing.unwrap();
            proof {
                assert(id_map@.contains_pair(id, nb));
                assert(img(id_map@).contains(nb));
            }
        } else {
            proof {
                assert(!id_map@.dom().contains(id));
            }
            if store.len() >= 0xffffffff {
                proof {
                    lemma_ptm_dom(lv);
                    assert(id_map@.dom().len() >= 0xffffffff);
                    assert(lv[k as int].0 == id);
                    assert(pairs_to_map(lv).dom().contains(id));
                    let big = phi0.dom().union(pairs_to_map(lv).dom());
                    assert(big.finite());
                    assert(id_map@.dom() <= big);
                    assert(!id_map@.dom().contains(id) && big.contains(id));
                    assert(id_map@.dom().insert(id) <= big);
                    assert(id_map@.dom().insert(id).len() == id_map@.dom().len() + 1);
                    vstd::set_lib::lemma_len_subset(id_map@.dom().insert(id), big);
                }
                return false;
            }
            nb = store.spawn();
            id_map.insert(id, nb);
            proof {
                assert(!img(phik).contains(nb));
                assert(id_map@ == phik.insert(id, nb));
                assert forall|a: u64, b: u64|
                    id_map@.dom().contains(a) && id_map@.dom().contains(b) && #[trigger] id_map@[a]
                        == #[trigger] id_map@[b] implies a == b by {
                    if a != id && b != id {
                        assert(phik[a] == phik[b]);
                    } else if a == id && b != id {
                        assert(img(phik).contains(phik[b]));
                    } else if a != id && b == id {
                        assert(img(phik).contains(phik[a]));
                    }
                }
                assert(img(id_map@) =~= img(phik).insert(nb)) by {
                    assert forall|q: u64| img(id_map@).contains(q) implies img(phik).insert(
                        nb,
                    ).contains(q) by {
                        let w0 = choose|w: u64|
                            #[trigger] id_map@.dom().contains(w) && id_map@[w] == q;
                        if w0 != id {
                            assert(phik.dom().contains(w0) && phik[w0] == q);
                        }
                    }
                    assert forall|q: u64| img(phik).insert(nb).contains(q) implies img(
                        id_map@,
                    ).contains(q) by {
                        if q == nb {
                            assert(id_map@.dom().contains(id) && id_map@[id] == nb);
                        } else {
                            let w0 = choose|w: u64|
                                #[trigger] phik.dom().contains(w) && phik[w] == q;
                            assert(id_map@.dom().contains(w0) && id_map@[w0] == q);
                        }
                    }
                }
                assert(id_map@.dom() =~= phik.dom().insert(id));
                lemma_kind_applied_mono(lv.take(k as int), phik, id_map@, store@.camera_anchor);
            }
        }
        proof {
            assert(store@.live.contains(nb));
        }
        let inserted = store.insert_camera_anchor(nb, c);
        proof {
            assert(inserted);
            let phin = id_map@;
            let mpn = store@.camera_anchor;
            assert(mpn == mpk.insert(nb, c));
            assert(pairs_to_map(lv.take(k as int + 1)) == pairs_to_map(lv.take(k as int)).insert(
                id,
                c,
            ));
            assert forall|id2: u64|
                #[trigger] pairs_to_map(lv.take(k as int + 1)).dom().contains(id2) implies phin.dom().contains(
                id2,
            ) && mpn.dom().contains(phin[id2]) && mpn[phin[id2]] == pairs_to_map(
                lv.take(k as int + 1),
            )[id2] by {
                if id2 == id {
                } else {
                    assert(pairs_to_map(lv.take(k as int)).dom().contains(id2));
                    assert(phin.dom().contains(id2) && mpk.dom().contains(phin[id2]));
                    if phin[id2] == nb {
                        assert(phin[id2] == phin[id]);
                        assert(id2 == id);
                    }
                }
            }
            assert forall|o: u64| #[trigger] mpn.dom().contains(o) implies exists|id2: u64|
                #[trigger] pairs_to_map(lv.take(k as int + 1)).dom().contains(id2)
                    && phin.dom().contains(id2) && phin[id2] == o by {
                if o == nb {
                    assert(pairs_to_map(lv.take(k as int + 1)).dom().contains(id)
                        && phin.dom().contains(id) && phin[id] == o);
                } else {
                    assert(mpk.dom().contains(o));
                    let id2 = choose|id2: u64|
                        #[trigger] pairs_to_map(lv.take(k as int)).dom().contains(id2)
                            && phik.dom().contains(id2) && phik[id2] == o;
                    assert(pairs_to_map(lv.take(k as int + 1)).dom().contains(id2)
                        && phin.dom().contains(id2) && phin[id2] == o);
                }
            }
            assert(kind_applied(lv.take(k as int + 1), id_map@, store@.camera_anchor));
            assert(id_map@.dom() =~= phi0.dom().union(pairs_to_map(lv.take(k as int + 1)).dom()));
        }
        k = k + 1;
    }
    proof {
        assert(lv.take(lv.len() as int) =~= lv);
    }
    true
}


/// Replay one kind's pair list into the store, spawning an entity for
/// each id met for the first time.  Reports failure only when the ids
/// outgrow the store's entity space.
#[verifier::rlimit(100)]
#[verifier::spinoff_prover]
fn load_player_list(
    store: &mut Store,
    id_map: &mut std::collections::HashMap<u64, u64>,
    l: Vec<(u64, Player)>,
    Ghost(lv0): Ghost<Seq<(u64, Player)>>,
) -> (ok: bool)
    requires
        old(store).inv(),
        phi_ok(old(id_map)@, old(store)@),
        old(store)@.player == Map::<u64, Player>::empty(),
        lv0 == l@,
    ensures
        final(store).inv(),
        phi_ok(final(id_map)@, final(store)@),
        old(id_map)@.dom() <= final(id_map)@.dom(),
        forall|id: u64|
            #[trigger] old(id_map)@.dom().contains(id) ==> final(id_map)@[id] == old(id_map)@[id],
            final(store)@.pos == old(store)@.pos,
            final(store)@.vel == old(store)@.vel,
            final(store)@.render == old(store)@.render,
            final(store)@.camera_anchor == old(store)@.camera_anchor,
            final(store)@.collider == old(store)@.collider,
            final(store)@.tile_map == old(store)@.tile_map,
        ok ==> final(id_map)@.dom() =~= old(id_map)@.dom().union(pairs_to_map(lv0).dom()),
        ok ==> kind_applied(lv0, final(id_map)@, final(store)@.player),
        !ok ==> old(id_map)@.dom().union(pairs_to_map(lv0).dom()).len() >= 0x100000000,
{
    let ghost lv = lv0;
    let ghost phi0 = id_map@;
    let mut rest = l;
    let total = rest.len();
    let mut k: usize = 0;
    proof {
        lemma_ptm_dom(lv);
        assert(lv.take(0) =~= Seq::<(u64, Player)>::empty());
        assert(phi0.dom().union(pairs_to_map(lv.take(0)).dom()) =~= phi0.dom());
        assert(rest@ =~= lv.subrange(0, lv.len() as int)) by {
            assert(lv.subrange(0, lv.len() as int) =~= lv);
        }
    }
    while rest.len() > 0
        invariant
            store.inv(),
            phi_ok(id_map@, store@),
            lv == lv0,
            lv.len() <= usize::MAX,
            phi0 == old(id_map)@,
            k + rest@.len() == lv.len(),
            rest@ =~= lv.subrange(k as int, lv.len() as int),
            phi0.dom().finite(),
            phi0.dom() <= id_map@.dom(),
            forall|id: u64| #[trigger] phi0.dom().contains(id) ==> id_map@[id] == phi0[id],
            id_map@.dom() =~= phi0.dom().union(pairs_to_map(lv.take(k as int)).dom()),
            kind_applied(lv.take(k as int), id_map@, store@.player),

            store@.pos == old(store)@.pos,
            store@.vel == old(store)@.vel,
            store@.render == old(store)@.render,
            store@.camera_anchor == old(store)@.camera_anchor,
            store@.collider == old(store)@.collider,
            store@.tile_map == old(store)@.tile_map,
        decreases rest@.len(),
    {
        let ghost phik = id_map@;
        let ghost mpk = store@.player;
        let ghost restp = rest@;
        let (id, c) = rest.remove(0);
        proof {
            assert(restp[0] == (id, c));
            assert(lv[k as int] == (id, c));
            lemma_ptm_take_step(lv, k as int);
            lemma_ptm_dom(lv.take(k as int));
            lemma_ptm_dom(lv.take(k as int + 1));
            assert(rest@ =~= lv.subrange(k as int + 1, lv.len() as int));
        }
        let nb: u64;
        let existing = id_map.get(&id);
        if existing.is_some() {
            nb = *existing.unwrap();
            proof {
                assert(id_map@.contains_pair(id, nb));
                assert(img(id_map@).contains(nb));
            }
        } else {
            proof {
                assert(!id_map@.dom().contains(id));
            }
            if store.len() >= 0xffffffff {
                proof {
                    lemma_ptm_dom(lv);
                    assert(id_map@.dom().len() >= 0xffffffff);
                    assert(lv[k as int].0 == id);
                    assert(pairs_to_map(lv).dom().contains(id));
                    let big = phi0.dom().union(pairs_to_map(lv).dom());
                    assert(big.finite());
                    assert(id_map@.dom() <= big);
                    assert(!id_map@.dom().contains(id) && big.contains(id));
                    assert(id_map@.dom().insert(id) <= big);
                    assert(id_map@.dom().insert(id).len() == id_map@.dom().len() + 1);
                    vstd::set_lib::lemma_len_subset(id_map@.dom().insert(id), big);
                }
                return false;
            }
            nb = store.spawn();
            id_map.insert(id, nb);
            proof {
                assert(!img(phik).contains(nb));
                assert(id_map@ == phik.insert(id, nb));
                assert forall|a: u64, b: u64|
                    id_map@.dom().contains(a) && id_map@.dom().contains(b) && #[trigger] id_map@[a]
                        == #[trigger] id_map@[b] implies a == b by {
                    if a != id && b != id {
                        assert(phik[a] == phik[b]);
                    } else if a == id && b != id {
                        assert(img(phik).contains(phik[b]));
                    } else if a != id && b == id {
                        assert(img(phik).contains(phik[a]));
                    }
                }
                assert(img(id_map@) =~= img(phik).insert(nb)) by {
                    assert forall|q: u64| img(id_map@).contains(q) implies img(phik).insert(
                        nb,
                    ).contains(q) by {
                        let w0 = choose|w: u64|
                            #[trigger] id_map@.dom().contains(w) && id_map@[w] == q;
                        if w0 != id {
                            assert(phik.dom().contains(w0) && phik[w0] == q);
                        }
                    }
                    assert forall|q: u64| img(phik).insert(nb).contains(q) implies img(
                        id_map@,
                    ).contains(q) by {
                        if q == nb {
                            assert(id_map@.dom().contains(id) && id_map@[id] == nb);
                        } else {
                            let w0 = choose|w: u64|
                                #[trigger] phik.dom().contains(w) && phik[w] == q;
                            assert(id_map@.dom().contains(w0) && id_map@[w0] == q);
                        }
                    }
                }
                assert(id_map@.dom() =~= phik.dom().insert(id));
                lemma_kind_applied_mono(lv.take(k as int), phik, id_map@, store@.player);
            }
        }
        proof {
            assert(store@.live.contains(nb));
        }
        let inserted = store.insert_player(nb, c);
        proof {
            assert(inserted);
            let phin = id_map@;
            let mpn = store@.player;
            assert(mpn == mpk.insert(nb, c));
            assert(pairs_to_map(lv.take(k as int + 1)) == pairs_to_map(lv.take(k as int)).insert(
                id,
                c,
            ));
            assert forall|id2: u64|
                #[trigger] pairs_to_map(lv.take(k as int + 1)).dom().contains(id2) implies phin.dom().contains(
                id2,
            ) && mpn.dom().contains(phin[id2]) && mpn[phin[id2]] == pairs_to_map(
                lv.take(k as int + 1),
            )[id2] by {
                if id2 == id {
                } else {
                    assert(pairs_to_map(lv.take(k as int)).dom().contains(id2));
                    assert(phin.dom().contains(id2) && mpk.dom().contains(phin[id2]));
                    if phin[id2] == nb {
                        assert(phin[id2] == phin[id]);
                        assert(id2 == id);
                    }
                }
            }
            assert forall|o: u64| #[trigger] mpn.dom().contains(o) implies exists|id2: u64|
                #[trigger] pairs_to_map(lv.take(k as int + 1)).dom().contains(id2)
                    && phin.dom().contains(id2) && phin[id2] == o by {
                if o == nb {
                    assert(pairs_to_map(lv.take(k as int + 1)).dom().contains(id)
                        && phin.dom().contains(id) && phin[id] == o);
                } else {
                    assert(mpk.dom().contains(o));
                    let id2 = choose|id2: u64|
                        #[trigger] pairs_to_map(lv.take(k as int)).dom().contains(id2)
                            && phik.dom().contains(id2) && phik[id2] == o;
                    assert(pairs_to_map(lv.take(k as int + 1)).dom().contains(id2)
                        && phin.dom().contains(id2) && phin[id2] == o);
                }
            }
            assert(kind_applied(lv.take(k as int + 1), id_map@, store@.player));
            assert(id_map@.dom() =~= phi0.dom().union(pairs_to_map(lv.take(k as int + 1)).dom()));
        }
        k = k + 1;
    }
    proof {
        assert(lv.take(lv.len() as int) =~= lv);
    }
    true
}


/// Replay one kind's pair list into the store, spawning an entity for
/// each id met for the first time.  Reports failure only when the ids
/// outgrow the store's entity space.
#[verifier::rlimit(100)]
#[verifier::spinoff_prover]
fn load_collider_list(
    store: &mut Store,
    id_map: &mut std::collections::HashMap<u64, u64>,
    l: Vec<(u64, Collider)>,
    Ghost(lv0): Ghost<Seq<(u64, Collider)>>,
) -> (ok: bool)
    requires
        old(store).inv(),
        phi_ok(old(id_map)@, old(store)@),
        old(store)@.collider == Map::<u64, Collider>::empty(),
        lv0 == l@,
    ensures
        final(store).inv(),
        phi_ok(final(id_map)@, final(store)@),
        old(id_map)@.dom() <= final(id_map)@.dom(),
        forall|id: u64|
            #[trigger] old(id_map)@.dom().contains(id) ==> final(id_map)@[id] == old(id_map)@[id],
            final(store)@.pos == old(store)@.pos,
            final(store)@.vel == old(store)@.vel,
            final(store)@.render == old(store)@.render,
            final(store)@.camera_anchor == old(store)@.camera_anchor,
            final(store)@.player == old(store)@.player,
            final(store)@.tile_map == old(store)@.tile_map,
        ok ==> final(id_map)@.dom() =~= old(id_map)@.dom().union(pairs_to_map(lv0).dom()),
        ok ==> kind_applied(lv0, final(id_map)@, final(store)@.collider),
        !ok ==> old(id_map)@.dom().union(pairs_to_map(lv0).dom()).len() >= 0x100000000,
{
    let ghost lv = lv0;
    let ghost phi0 = id_map@;
    let mut rest = l;
    let total = rest.len();
    let mut k: usize = 0;
    proof {
        lemma_ptm_dom(lv);
        assert(lv.take(0) =~= Seq::<(u64, Collider)>::empty());
        assert(phi0.dom().union(pairs_to_map(lv.take(0)).dom()) =~= phi0.dom());
        assert(rest@ =~= lv.subrange(0, lv.len() as int)) by {
            assert(lv.subrange(0, lv.len() as int) =~= lv);
        }
    }
    while rest.len() > 0
        invariant
            store.inv(),
            phi_ok(id_map@, store@),
            lv == lv0,
            lv.len() <= usize::MAX,
            phi0 == old(id_map)@,
            k + rest@.len() == lv.len(),
            rest@ =~= lv.subrange(k as int, lv.len() as int),
            phi0.dom().finite(),
            phi0.dom() <= id_map@.dom(),
            forall|id: u64| #[trigger] phi0.dom().contains(id) ==> id_map@[id] == phi0[id],
            id_map@.dom() =~= phi0.dom().union(pairs_to_map(lv.take(k as int)).dom()),
            kind_applied(lv.take(k as int), id_map@, store@.collider),

            store@.pos == old(store)@.pos,
            store@.vel == old(store)@.vel,
            store@.render == old(store)@.render,
            store@.camera_anchor == old(store)@.camera_anchor,
            store@.player == old(store)@.player,
            store@.tile_map == old(store)@.tile_map,
        decreases rest@.len(),
    {
        let ghost phik = id_map@;
        let ghost mpk = store@.collider;
        let ghost restp = rest@;
        let (id, c) = rest.remove(0);
        proof {
            assert(restp[0] == (id, c));
            assert(lv[k as int] == (id, c));
            lemma_ptm_take_step(lv, k as int);
            lemma_ptm_dom(lv.take(k as int));
            lemma_ptm_dom(lv.take(k as int + 1));
            assert(rest@ =~= lv.subrange(k as int + 1, lv.len() as int));
        }
        let nb: u64;
        let existing = id_map.get(&id);
        if existing.is_some() {
            nb = *existing.unwrap();
            proof {
                assert(id_map@.contains_pair(id, nb));
                assert(img(id_map@).contains(nb));
            }
        } else {
            proof {
                assert(!id_map@.dom().contains(id));
            }
            if store.len() >= 0xffffffff {
                proof {
                    lemma_ptm_dom(lv);
                    assert(id_map@.dom().len() >= 0xffffffff);
                    assert(lv[k as int].0 == id);
                    assert(pairs_to_map(lv).dom().contains(id));
                    let big = phi0.dom().union(pairs_to_map(lv).dom());
                    assert(big.finite());
                    assert(id_map@.dom() <= big);
                    assert(!id_map@.dom().contains(id) && big.contains(id));
                    assert(id_map@.dom().insert(id) <= big);
                    assert(id_map@.dom().insert(id).len() == id_map@.dom().len() + 1);
                    vstd::set_lib::lemma_len_subset(id_map@.dom().insert(id), big);
                }
                return false;
            }
            nb = store.spawn();
            id_map.insert(id, nb);
            proof {
                assert(!img(phik).contains(nb));
                assert(id_map@ == phik.insert(id, nb));
                assert forall|a: u64, b: u64|
                    id_map@.dom().contains(a) && id_map@.dom().contains(b) && #[trigger] id_map@[a]
                        == #[trigger] id_map@[b] implies a == b by {
                    if a != id && b != id {
                        assert(phik[a] == phik[b]);
                    } else if a == id && b != id {
                        assert(img(phik).contains(phik[b]));
                    } else if a != id && b == id {
                        assert(img(phik).contains(phik[a]));
                    }
                }
                assert(img(id_map@) =~= img(phik).insert(nb)) by {
                    assert forall|q: u64| img(id_map@).contains(q) implies img(phik).insert(
                        nb,
                    ).contains(q) by {
                        let w0 = choose|w: u64|
                            #[trigger] id_map@.dom().contains(w) && id_map@[w] == q;
                        if w0 != id {
                            assert(phik.dom().contains(w0) && phik[w0] == q);
                        }
                    }
                    assert forall|q: u64| img(phik).insert(nb).contains(q) implies img(
                        id_map@,
                    ).contains(q) by {
                        if q == nb {
                            assert(id_map@.dom().contains(id) && id_map@[id] == nb);
                        } else {
                            let w0 = choose|w: u64|
                                #[trigger] phik.dom().contains(w) && phik[w] == q;
                            assert(id_map@.dom().contains(w0) && id_map@[w0] == q);
                        }
                    }
                }
                assert(id_map@.dom() =~= phik.dom().insert(id));
                lemma_kind_applied_mono(lv.take(k as int), phik, id_map@, store@.collider);
            }
        }
        proof {
            assert(store@.live.contains(nb));
        }
        let inserted = store.insert_collider(nb, c);
        proof {
            assert(inserted);
            let phin = id_map@;
            let mpn = store@.collider;
            assert(mpn == mpk.insert(nb, c));
            assert(pairs_to_map(lv.take(k as int + 1)) == pairs_to_map(lv.take(k as int)).insert(
                id,
                c,
            ));
            assert forall|id2: u64|
                #[trigger] pairs_to_map(lv.take(k as int + 1)).dom().contains(id2) implies phin.dom().contains(
                id2,
            ) && mpn.dom().contains(phin[id2]) && mpn[phin[id2]] == pairs_to_map(
                lv.take(k as int + 1),
            )[id2] by {
                if id2 == id {
                } else {
                    assert(pairs_to_map(lv.take(k as int)).dom().contains(id2));
                    assert(phin.dom().contains(id2) && mpk.dom().contains(phin[id2]));
                    if phin[id2] == nb {
                        assert(phin[id2] == phin[id]);
                        assert(id2 == id);
                    }
                }
            }
            assert forall|o: u64| #[trigger] mpn.dom().contains(o) implies exists|id2: u64|
                #[trigger] pairs_to_map(lv.take(k as int + 1)).dom().contains(id2)
                    && phin.dom().contains(id2) && phin[id2] == o by {
                if o == nb {
                    assert(pairs_to_map(lv.take(k as int + 1)).dom().contains(id)
                        && phin.dom().contains(id) && phin[id] == o);
                } else {
                    assert(mpk.dom().contains(o));
                    let id2 = choose|id2: u64|
                        #[trigger] pairs_to_map(lv.take(k as int)).dom().contains(id2)
                            && phik.dom().contains(id2) && phik[id2] == o;
                    assert(pairs_to_map(lv.take(k as int + 1)).dom().contains(id2)
                        && phin.dom().contains(id2) && phin[id2] == o);
                }
            }
            assert(kind_applied(lv.take(k as int + 1), id_map@, store@.collider));
            assert(id_map@.dom() =~= phi0.dom().union(pairs_to_map(lv.take(k as int + 1)).dom()));
        }
        k = k + 1;
    }
    proof {
        assert(lv.take(lv.len() as int) =~= lv);
    }
    true
}


/// Replay one kind's pair list into the store, spawning an entity for
/// each id met for the first time.  Reports failure only when the ids
/// outgrow the store's entity space.
#[verifier::rlimit(100)]
#[verifier::spinoff_prover]
fn load_tile_map_list(
    store: &mut Store,
    id_map: &mut std::collections::HashMap<u64, u64>,
    l: Vec<(u64, TileMap)>,
    Ghost(lv0): Ghost<Seq<(u64, TileMapV)>>,
) -> (ok: bool)
    requires
        old(store).inv(),
        phi_ok(old(id_map)@, old(store)@),
        old(store)@.tile_map == Map::<u64, TileMapV>::empty(),
        lv0 == l@.map_values(|p: (u64, TileMap)| (p.0, p.1@)),
        forall|k: int| 0 <= k < lv0.len() ==> (#[trigger] lv0[k]).1.tiles.len() < 0x100000000,
    ensures
        final(store).inv(),
        phi_ok(final(id_map)@, final(store)@),
        old(id_map)@.dom() <= final(id_map)@.dom(),
        forall|id: u64|
            #[trigger] old(id_map)@.dom().contains(id) ==> final(id_map)@[id] == old(id_map)@[id],
            final(store)@.pos == old(store)@.pos,
            final(store)@.vel == old(store)@.vel,
            final(store)@.render == old(store)@.render,
            final(store)@.camera_anchor == old(store)@.camera_anchor,
            final(store)@.player == old(store)@.player,
            final(store)@.collider == old(store)@.collider,
        ok ==> final(id_map)@.dom() =~= old(id_map)@.dom().union(pairs_to_map(lv0).dom()),
        ok ==> kind_applied(lv0, final(id_map)@, final(store)@.tile_map),
        !ok ==> old(id_map)@.dom().union(pairs_to_map(lv0).dom()).len() >= 0x100000000,
{
    let ghost lv = lv0;
    let ghost phi0 = id_map@;
    let mut rest = l;
    let total = rest.len();
    let mut k: usize = 0;
    proof {
        lemma_ptm_dom(lv);
        assert(lv.take(0) =~= Seq::<(u64, TileMapV)>::empty());
        assert(phi0.dom().union(pairs_to_map(lv.take(0)).dom()) =~= phi0.dom());
        assert(rest@.map_values(|p: (u64, TileMap)| (p.0, p.1@)) =~= lv.subrange(0, lv.len() as int)) by {
            assert(lv.subrange(0, lv.len() as int) =~= lv);
        }
    }
    while rest.len() > 0
        invariant
            store.inv(),
            phi_ok(id_map@, store@),
            lv == lv0,
            lv.len() <= usize::MAX,
            phi0 == old(id_map)@,
            k + rest@.len() == lv.len(),
            rest@.map_values(|p: (u64, TileMap)| (p.0, p.1@)) =~= lv.subrange(k as int, lv.len() as int),
            phi0.dom().finite(),
            phi0.dom() <= id_map@.dom(),
            forall|id: u64| #[trigger] phi0.dom().contains(id) ==> id_map@[id] == phi0[id],
            id_map@.dom() =~= phi0.dom().union(pairs_to_map(lv.take(k as int)).dom()),
            kind_applied(lv.take(k as int), id_map@, store@.tile_map),
            forall|q: int| 0 <= q < lv.len() ==> (#[trigger] lv[q]).1.tiles.len() < 0x100000000,
            store@.pos == old(store)@.pos,
            store@.vel == old(store)@.vel,
            store@.render == old(store)@.render,
            store@.camera_anchor == old(store)@.camera_anchor,
            store@.player == old(store)@.player,
            store@.collider == old(store)@.collider,
        decreases rest@.len(),
    {
        let ghost phik = id_map@;
        let ghost mpk = store@.tile_map;
        let ghost restp = rest@;
        let (id, c) = rest.remove(0);
        proof {
            assert(restp[0] == (id, c));
            assert(restp.map_values(|p: (u64, TileMap)| (p.0, p.1@))[0] == lv.subrange(
                k as int,
                lv.len() as int,
            )[0]);
            assert(restp.map_values(|p: (u64, TileMap)| (p.0, p.1@))[0] == (restp[0].0, restp[0].1@));
            assert(lv[k as int] == (id, c@));
            lemma_ptm_take_step(lv, k as int);
            lemma_ptm_dom(lv.take(k as int));
            lemma_ptm_dom(lv.take(k as int + 1));
            assert forall|q: int| #![trigger rest@[q]] 0 <= q < rest@.len() implies rest@.map_values(
                |p: (u64, TileMap)| (p.0, p.1@),
            )[q] == lv.subrange(k as int + 1, lv.len() as int)[q] by {
                assert(rest@[q] == restp[q + 1]);
                assert(restp.map_values(|p: (u64, TileMap)| (p.0, p.1@))[q + 1] == lv.subrange(
                    k as int,
                    lv.len() as int,
                )[q + 1]);
            }
            assert(rest@.map_values(|p: (u64, TileMap)| (p.0, p.1@)) =~= lv.subrange(
                k as int + 1,
                lv.len() as int,
            ));
        }
        let nb: u64;
        let existing = id_map.get(&id);
        if existing.is_some() {
            nb = *existing.unwrap();
            proof {
                assert(id_map@.contains_pair(id, nb));
                assert(img(id_map@).contains(nb));
            }
        } else {
            proof {
                assert(!id_map@.dom().contains(id));
            }
            if store.len() >= 0xffffffff {
                proof {
                    lemma_ptm_dom(lv);
                    assert(id_map@.dom().len() >= 0xffffffff);
                    assert(lv[k as int].0 == id);
                    assert(pairs_to_map(lv).dom().contains(id));
                    let big = phi0.dom().union(pairs_to_map(lv).dom());
                    assert(big.finite());
                    assert(id_map@.dom() <= big);
                    assert(!id_map@.dom().contains(id) && big.contains(id));
                    assert(id_map@.dom().insert(id) <= big);
                    assert(id_map@.dom().insert(id).len() == id_map@.dom().len() + 1);
                    vstd::set_lib::lemma_len_subset(id_map@.dom().insert(id), big);
                }
                return false;
            }
            nb = store.spawn();
            id_map.insert(id, nb);
            proof {
                assert(!img(phik).contains(nb));
                assert(id_map@ == phik.insert(id, nb));
                assert forall|a: u64, b: u64|
                    id_map@.dom().contains(a) && id_map@.dom().contains(b) && #[trigger] id_map@[a]
                        == #[trigger] id_map@[b] implies a == b by {
                    if a != id && b != id {
                        assert(phik[a] == phik[b]);
                    } else if a == id && b != id {
                        assert(img(phik).contains(phik[b]));
                    } else if a != id && b == id {
                        assert(img(phik).contains(phik[a]));
                    }
                }
                assert(img(id_map@) =~= img(phik).insert(nb)) by {
                    assert forall|q: u64| img(id_map@).contains(q) implies img(phik).insert(
                        nb,
                    ).contains(q) by {
                        let w0 = choose|w: u64|
                            #[trigger] id_map@.dom().contains(w) && id_map@[w] == q;
                        if w0 != id {
                            assert(phik.dom().contains(w0) && phik[w0] == q);
                        }
                    }
                    assert forall|q: u64| img(phik).insert(nb).contains(q) implies img(
                        id_map@,
                    ).contains(q) by {
                        if q == nb {
                            assert(id_map@.dom().contains(id) && id_map@[id] == nb);
                        } else {
                            let w0 = choose|w: u64|
                                #[trigger] phik.dom().contains(w) && phik[w] == q;
                            assert(id_map@.dom().contains(w0) && id_map@[w0] == q);
                        }
                    }
                }
                assert(id_map@.dom() =~= phik.dom().insert(id));
                lemma_kind_applied_mono(lv.take(k as int), phik, id_map@, store@.tile_map);
            }
        }
        proof {
            assert(store@.live.contains(nb));
        }
        let inserted = store.insert_tile_map(nb, c);
        proof {
            assert(inserted);
            let phin = id_map@;
            let mpn = store@.tile_map;
            assert(mpn == mpk.insert(nb, c@));
            assert(pairs_to_map(lv.take(k as int + 1)) == pairs_to_map(lv.take(k as int)).insert(
                id,
                c@,
            ));
            assert forall|id2: u64|
                #[trigger] pairs_to_map(lv.take(k as int + 1)).dom().contains(id2) implies phin.dom().contains(
                id2,
            ) && mpn.dom().contains(phin[id2]) && mpn[phin[id2]] == pairs_to_map(
                lv.take(k as int + 1),
            )[id2] by {
                if id2 == id {
                } else {
                    assert(pairs_to_map(lv.take(k as int)).dom().contains(id2));
                    assert(phin.dom().contains(id2) && mpk.dom().contains(phin[id2]));
                    if phin[id2] == nb {
                        assert(phin[id2] == phin[id]);
                        assert(id2 == id);
                    }
                }
            }
            assert forall|o: u64| #[trigger] mpn.dom().contains(o) implies exists|id2: u64|
                #[trigger] pairs_to_map(lv.take(k as int + 1)).dom().contains(id2)
                    && phin.dom().contains(id2) && phin[id2] == o by {
                if o == nb {
                    assert(pairs_to_map(lv.take(k as int + 1)).dom().contains(id)
                        && phin.dom().contains(id) && phin[id] == o);
                } else {
                    assert(mpk.dom().contains(o));
                    let id2 = choose|id2: u64|
                        #[trigger] pairs_to_map(lv.take(k as int)).dom().contains(id2)
                            && phik.dom().contains(id2) && phik[id2] == o;
                    assert(pairs_to_map(lv.take(k as int + 1)).dom().contains(id2)
                        && phin.dom().contains(id2) && phin[id2] == o);
                }
            }
            assert(kind_applied(lv.take(k as int + 1), id_map@, store@.tile_map));
            assert(id_map@.dom() =~= phi0.dom().union(pairs_to_map(lv.take(k as int + 1)).dom()));
        }
        k = k + 1;
    }
    proof {
        assert(lv.take(lv.len() as int) =~= lv);
    }
    true
}


/// The set of ids a scene mentions is finite.
pub proof fn lemma_scene_ids_finite(m: SceneModel)
    ensures
        scene_ids(m).finite(),
{
    lemma_ptm_dom(m.pos);
    lemma_ptm_dom(m.vel);
    lemma_ptm_dom(m.render);
    lemma_ptm_dom(m.camera_anchor);
    lemma_ptm_dom(m.player);
    lemma_ptm_dom(m.collider);
    lemma_ptm_dom(m.tile_map);
}

/// Replace the whole store with a persisted scene: clear it, decode the
/// payload, and replay every kind's pairs through a remap table built
/// fresh, spawning one entity per distinct persisted id.  A payload
/// that does not decode, or whose ids outgrow the store's entity space,
/// leaves the store empty; the store is never left half loaded.
#[verifier::rlimit(100)]
#[verifier::spinoff_prover]
pub fn load_scene(store: &mut Store, data: &[u8]) -> (ok: bool)
    requires
        old(store).inv(),
    ensures
        final(store).inv(),
        match dec_scene_full(data@) {
            None => !ok && final(store)@ == empty_view(),
            Some(m) => {
                &&& (ok <==> scene_ids(m).len() < 0x100000000)
                &&& ok ==> exists|phi: Map<u64, u64>|
                    #[trigger] scene_applied(m, phi, final(store)@)
                &&& !ok ==> final(store)@ == empty_view()
            },
        },
{
    broadcast use vstd::std_specs::hash::group_hash_axioms;

    store.clear();
    let decoded = decode_scene(data);
    if decoded.is_none() {
        return false;
    }
    let sc = decoded.unwrap();
    let ghost m = sc@;
    let mut id_map: std::collections::HashMap<u64, u64> = std::collections::HashMap::new();
    let ghost phi0 = id_map@;
    proof {
        lemma_scene_ids_finite(m);
        assert(img(phi0) =~= Set::<u64>::empty());
        assert(phi0.dom() =~= Set::<u64>::empty());
        assert(phi_ok(phi0, store@));
    }
    if !load_pos_list(store, &mut id_map, sc.pos, Ghost(m.pos)) {
        proof {
            lemma_ptm_dom(m.pos);
            lemma_scene_ids_finite(m);
            let big = phi0.dom().union(pairs_to_map(m.pos).dom());
            assert forall|b: u64| big.contains(b) implies scene_ids(m).contains(b) by {
                assert(scene_ids(m).contains(b));
            }
            assert(big <= scene_ids(m));
            vstd::set_lib::lemma_len_subset(big, scene_ids(m));
        }
        store.clear();
        return false;
    }
    let ghost phi1 = id_map@;
    if !load_vel_list(store, &mut id_map, sc.vel, Ghost(m.vel)) {
        proof {
            lemma_ptm_dom(m.vel);
            lemma_scene_ids_finite(m);
            let big = phi1.dom().union(pairs_to_map(m.vel).dom());
            assert forall|b: u64| big.contains(b) implies scene_ids(m).contains(b) by {
                if phi1.dom().contains(b) {
                    assert(phi0.dom().contains(b) || pairs_to_map(m.pos).dom().contains(b));
                }
            }
            assert(big <= scene_ids(m));
            vstd::set_lib::lemma_len_subset(big, scene_ids(m));
        }
        store.clear();
        return false;
    }
    let ghost phi2 = id_map@;
    if !load_render_list(store, &mut id_map, sc.render, Ghost(m.render)) {
        proof {
            lemma_ptm_dom(m.render);
            lemma_scene_ids_finite(m);
            let big = phi2.dom().union(pairs_to_map(m.render).dom());
            assert forall|b: u64| big.contains(b) implies scene_ids(m).contains(b) by {
                if phi2.dom().contains(b) {
                    assert(phi1.dom().contains(b) || pairs_to_map(m.vel).dom().contains(b));
                }
                if phi1.dom().contains(b) {
                    assert(phi0.dom().contains(b) || pairs_to_map(m.pos).dom().contains(b));
                }
            }
            assert(big <= scene_ids(m));
            vstd::set_lib::lemma_len_subset(big, scene_ids(m));
        }
        store.clear();
        return false;
    }
    let ghost phi3 = id_map@;
    if !load_camera_anchor_list(store, &mut id_map, sc.camera_anchor, Ghost(m.camera_anchor)) {
        proof {
            lemma_ptm_dom(m.camera_anchor);
            lemma_scene_ids_finite(m);
            let big = phi3.dom().union(pairs_to_map(m.camera_anchor).dom());
            assert forall|b: u64| big.contains(b) implies scene_ids(m).contains(b) by {
                if phi3.dom().contains(b) {
                    assert(phi2.dom().contains(b) || pairs_to_map(m.render).dom().contains(b));
                }
                if phi2.dom().contains(b) {
                    assert(phi1.dom().contains(b) || pairs_to_map(m.vel).dom().contains(b));
                }
                if phi1.dom().contains(b) {
                    assert(phi0.dom().contains(b) || pairs_to_map(m.pos).dom().contains(b));
                }
            }
            assert(big <= scene_ids(m));
            vstd::set_lib::lemma_len_subset(big, scene_ids(m));
        }
        store.clear();
        return false;
    }
    let ghost phi4 = id_map@;
    if !load_player_list(store, &mut id_map, sc.player, Ghost(m.player)) {
        proof {
            lemma_ptm_dom(m.player);
            lemma_scene_ids_finite(m);
            let big = phi4.dom().union(pairs_to_map(m.player).dom());
            assert forall|b: u64| big.contains(b) implies scene_ids(m).contains(b) by {
                if phi4.dom().contains(b) {
                    assert(phi3.dom().contains(b) || pairs_to_map(m.camera_anchor).dom().contains(b));
                }
                if phi3.dom().contains(b) {
                    assert(phi2.dom().contains(b) || pairs_to_map(m.render).dom().contains(b));
                }
                if phi2.dom().contains(b) {
                    assert(phi1.dom().contains(b) || pairs_to_map(m.vel).dom().contains(b));
                }
                if phi1.dom().contains(b) {
                    assert(phi0.dom().contains(b) || pairs_to_map(m.pos).dom().contains(b));
                }
            }
            assert(big <= scene_ids(m));
            vstd::set_lib::lemma_len_subset(big, scene_ids(m));
        }
        store.clear();
        return false;
    }
    let ghost phi5 = id_map@;
    if !load_collider_list(store, &mut id_map, sc.collider, Ghost(m.collider)) {
        proof {
            lemma_ptm_dom(m.collider);
            lemma_scene_ids_finite(m);
            let big = phi5.dom().union(pairs_to_map(m.collider).dom());
            assert forall|b: u64| big.contains(b) implies scene_ids(m).contains(b) by {
                if phi5.dom().contains(b) {
                    assert(phi4.dom().contains(b) || pairs_to_map(m.player).dom().contains(b));
                }
                if phi4.dom().contains(b) {
                    assert(phi3.dom().contains(b) || pairs_to_map(m.camera_anchor).dom().contains(b));
                }
                if phi3.dom().contains(b) {
                    assert(phi2.dom().contains(b) || pairs_to_map(m.render).dom().contains(b));
                }
                if phi2.dom().contains(b) {
                    assert(phi1.dom().contains(b) || pairs_to_map(m.vel).dom().contains(b));
                }
                if phi1.dom().contains(b) {
                    assert(phi0.dom().contains(b) || pairs_to_map(m.pos).dom().contains(b));
                }
            }
            assert(big <= scene_ids(m));
            vstd::set_lib::lemma_len_subset(big, scene_ids(m));
        }
        store.clear();
        return false;
    }
    let ghost phi6 = id_map@;
    proof {
        assert(dec_scene_full(data@) == Some(m));
        crate::codec::lemma_dec_scene_full_tile_bound(data@, m);
    }
    if !load_tile_map_list(store, &mut id_map, sc.tile_map, Ghost(m.tile_map)) {
        proof {
            lemma_ptm_dom(m.tile_map);
            lemma_scene_ids_finite(m);
            let big = phi6.dom().union(pairs_to_map(m.tile_map).dom());
            assert forall|b: u64| big.contains(b) implies scene_ids(m).contains(b) by {
                if phi6.dom().contains(b) {
                    assert(phi5.dom().contains(b) || pairs_to_map(m.collider).dom().contains(b));
                }
                if phi5.dom().contains(b) {
                    assert(phi4.dom().contains(b) || pairs_to_map(m.player).dom().contains(b));
                }
                if phi4.dom().contains(b) {
                    assert(phi3.dom().contains(b) || pairs_to_map(m.camera_anchor).dom().contains(b));
                }
                if phi3.dom().contains(b) {
                    assert(phi2.dom().contains(b) || pairs_to_map(m.render).dom().contains(b));
                }
                if phi2.dom().contains(b) {
                    assert(phi1.dom().contains(b) || pairs_to_map(m.vel).dom().contains(b));
                }
                if phi1.dom().contains(b) {
                    assert(phi0.dom().contains(b) || pairs_to_map(m.pos).dom().contains(b));
                }
            }
            assert(big <= scene_ids(m));
            vstd::set_lib::lemma_len_subset(big, scene_ids(m));
        }
        store.clear();
        return false;
    }
    let ghost phi7 = id_map@;
    proof {
        lemma_scene_ids_finite(m);
        assert(phi7.dom() =~= scene_ids(m));
        lemma_kind_applied_mono(m.pos, phi1, phi7, store@.pos);
        lemma_kind_applied_mono(m.vel, phi2, phi7, store@.vel);
        lemma_kind_applied_mono(m.render, phi3, phi7, store@.render);
        lemma_kind_applied_mono(m.camera_anchor, phi4, phi7, store@.camera_anchor);
        lemma_kind_applied_mono(m.player, phi5, phi7, store@.player);
        lemma_kind_applied_mono(m.collider, phi6, phi7, store@.collider);
        lemma_kind_applied_mono(m.tile_map, phi7, phi7, store@.tile_map);
        assert(scene_applied(m, phi7, store@));
        assert(scene_ids(m).len() == phi7.dom().len());
    }
    true
}


// ---------------------------------------------------------------------
// laws
// ---------------------------------------------------------------------
/// The component bundle a view assigns to one entity identity.
#[verifier::ext_equal]
pub ghost struct Group {
    pub pos: Option<Pos>,
    pub vel: Option<Vel>,
    pub render: Option<Render>,
    pub camera_anchor: Option<CameraAnchor>,
    pub player: Option<Player>,
    pub collider: Option<Collider>,
    pub tile_map: Option<TileMapV>,
}

/// The bundle of components that `b` carries in `v`.
pub open spec fn group_of(v: StoreView, b: u64) -> Group {
    Group {
        pos: if v.pos.dom().contains(b) {
            Some(v.pos[b])
        } else {
            None
        },
        vel: if v.vel.dom().contains(b) {
            Some(v.vel[b])
        } else {
            None
        },
        render: if v.render.dom().contains(b) {
            Some(v.render[b])
        } else {
            None
        },
        camera_anchor: if v.camera_anchor.dom().contains(b) {
            Some(v.camera_anchor[b])
        } else {
            None
        },
        player: if v.player.dom().contains(b) {
            Some(v.player[b])
        } else {
            None
        },
        collider: if v.collider.dom().contains(b) {
            Some(v.collider[b])
        } else {
            None
        },
        tile_map: if v.tile_map.dom().contains(b) {
            Some(v.tile_map[b])
        } else {
            None
        },
    }
}

/// A bundle in its persisted form: the render cache cleared.
pub open spec fn persist_group(g: Group) -> Group {
    Group {
        render: match g.render {
            Some(r) => Some(Render { cached_sprite: None, ..r }),
            None => None,
        },
        ..g
    }
}

/// The identities that carry at least one component in `v`.
pub open spec fn nonempty_ids(v: StoreView) -> Set<u64> {
    v.pos.dom().union(v.vel.dom()).union(v.render.dom()).union(v.camera_anchor.dom()).union(
        v.player.dom(),
    ).union(v.collider.dom()).union(v.tile_map.dom())
}

/// A represented pair list with no duplicate keys holds each of its pairs
/// in its map.
pub proof fn lemma_ptm_nodup<T>(l: Seq<(u64, T)>)
    requires
        forall|k1: int, k2: int| 0 <= k1 < k2 < l.len() ==> l[k1].0 != l[k2].0,
    ensures
        forall|k: int|
            0 <= k < l.len() ==> pairs_to_map(l).contains_pair(#[trigger] l[k].0, l[k].1),
    decreases l.len(),
{
    if l.len() == 0 {
    } else {
        lemma_ptm_nodup(l.drop_last());
        assert forall|k: int| 0 <= k < l.len() implies pairs_to_map(l).contains_pair(
            #[trigger] l[k].0,
            l[k].1,
        ) by {
            if k < l.len() - 1 {
                assert(l.drop_last()[k] == l[k]);
                assert(pairs_to_map(l.drop_last()).contains_pair(l[k].0, l[k].1));
                assert(l[k].0 != l.last().0);
            }
        }
    }
}

/// A pair list that represents a map has that map as its value.
pub proof fn lemma_represents_ptm<T>(l: Seq<(u64, T)>, mp: Map<u64, T>)
    requires
        list_represents(l, mp),
    ensures
        pairs_to_map(l) == mp,
{
    lemma_ptm_dom(l);
    lemma_ptm_nodup(l);
    assert forall|b: u64| #[trigger] pairs_to_map(l).dom().contains(b) implies mp.dom().contains(b)
        && pairs_to_map(l)[b] == mp[b] by {
        let k0 = choose|k: int| 0 <= k < l.len() && #[trigger] l[k].0 == b;
        assert(pairs_to_map(l).contains_pair(l[k0].0, l[k0].1));
        assert(mp.contains_pair(l[k0].0, l[k0].1));
    }
    assert forall|b: u64| #[trigger] mp.dom().contains(b) implies pairs_to_map(l).dom().contains(
        b,
    ) by {
        let k0 = choose|k: int| 0 <= k < l.len() && #[trigger] l[k].0 == b;
        assert(l[k0].0 == b);
    }
    assert(pairs_to_map(l) =~= mp);
}

/// ROUND TRIP LAW.  Take any store view `v0`, a scene that represents it
/// (as `save_scene` produces), and any store view `v1` built by replaying
/// that scene's persisted form through a remap table (as `load_scene`
/// produces).  Then the remap table is an exact correspondence between
/// the entities of `v0` that carry components and the live entities of
/// `v1`, and corresponding entities carry equal component bundles, the
/// render cache excepted.  Entities with no components are dropped.
pub proof fn lemma_save_load_round_trip(
    v0: StoreView,
    m: SceneModel,
    phi: Map<u64, u64>,
    v1: StoreView,
)
    requires
        scene_represents(m, v0),
        scene_applied(persist_scene(m), phi, v1),
    ensures
        injective(phi),
        phi.dom() == nonempty_ids(v0),
        v1.live == img(phi),
        forall|b: u64|
            #[trigger] nonempty_ids(v0).contains(b) ==> group_of(v1, phi[b]) == persist_group(
                group_of(v0, b),
            ),
        forall|nb: u64|
            #[trigger] v1.live.contains(nb) ==> exists|b: u64|
                nonempty_ids(v0).contains(b) && #[trigger] phi.dom().contains(b) && phi[b] == nb,
{
    let pm = persist_scene(m);
    lemma_represents_ptm(m.pos, v0.pos);
    lemma_represents_ptm(m.vel, v0.vel);
    lemma_represents_ptm(m.render, v0.render);
    lemma_represents_ptm(m.camera_anchor, v0.camera_anchor);
    lemma_represents_ptm(m.player, v0.player);
    lemma_represents_ptm(m.collider, v0.collider);
    lemma_represents_ptm(m.tile_map, v0.tile_map);
    lemma_ptm_dom(m.render);
    lemma_ptm_dom(pm.render);
    lemma_ptm_nodup(m.render);
    assert(forall|k1: int, k2: int|
        0 <= k1 < k2 < pm.render.len() ==> pm.render[k1].0 != pm.render[k2].0) by {
        assert(forall|k: int|
            0 <= k < pm.render.len() ==> #[trigger] pm.render[k].0 == m.render[k].0);
    }
    lemma_ptm_nodup(pm.render);
    // the persisted render list is keyed like the plain one
    assert(pairs_to_map(pm.render).dom() =~= pairs_to_map(m.render).dom()) by {
        assert(forall|k: int|
            0 <= k < pm.render.len() ==> #[trigger] pm.render[k].0 == m.render[k].0);
        assert forall|b: u64| #[trigger] pairs_to_map(pm.render).dom().contains(b) implies pairs_to_map(
            m.render,
        ).dom().contains(b) by {
            let k0 = choose|k: int| 0 <= k < pm.render.len() && #[trigger] pm.render[k].0 == b;
            assert(m.render[k0].0 == b);
        }
        assert forall|b: u64| #[trigger] pairs_to_map(m.render).dom().contains(b) implies pairs_to_map(
            pm.render,
        ).dom().contains(b) by {
            let k0 = choose|k: int| 0 <= k < m.render.len() && #[trigger] m.render[k].0 == b;
            assert(pm.render[k0].0 == b);
        }
    }
    assert(phi.dom() =~= nonempty_ids(v0));
    assert forall|b: u64| #[trigger] nonempty_ids(v0).contains(b) implies group_of(v1, phi[b])
        == persist_group(group_of(v0, b)) by {
        let nb = phi[b];
        assert(phi.dom().contains(b));
        // each kind transfers; for render the persisted value transfers
        if v0.render.dom().contains(b) {
            let k0 = choose|k: int| 0 <= k < m.render.len() && #[trigger] m.render[k].0 == b;
            assert(pairs_to_map(m.render).contains_pair(m.render[k0].0, m.render[k0].1));
            assert(pm.render[k0] == persist_render_entry(m.render[k0]));
            assert(pairs_to_map(pm.render).contains_pair(pm.render[k0].0, pm.render[k0].1));
            assert(pairs_to_map(pm.render)[b] == (Render {
                cached_sprite: None,
                ..v0.render[b]
            }));
            assert(v1.render[nb] == (Render { cached_sprite: None, ..v0.render[b] }));
        } else {
            if v1.render.dom().contains(nb) {
                let id0 = choose|id: u64|
                    #[trigger] pairs_to_map(pm.render).dom().contains(id)
                        && phi.dom().contains(id) && phi[id] == nb;
                assert(id0 == b);
                assert(v0.render.dom().contains(b));
            }
        }
        if v0.pos.dom().contains(b) {
            assert(v1.pos[nb] == v0.pos[b]);
        } else {
            if v1.pos.dom().contains(nb) {
                let id0 = choose|id: u64|
                    #[trigger] pairs_to_map(pm.pos).dom().contains(id) && phi.dom().contains(id)
                        && phi[id] == nb;
                assert(id0 == b);
            }
        }
        if v0.vel.dom().contains(b) {
            assert(v1.vel[nb] == v0.vel[b]);
        } else {
            if v1.vel.dom().contains(nb) {
                let id0 = choose|id: u64|
                    #[trigger] pairs_to_map(pm.vel).dom().contains(id) && phi.dom().contains(id)
                        && phi[id] == nb;
                assert(id0 == b);
            }
        }
        if v0.camera_anchor.dom().contains(b) {
            assert(v1.camera_anchor[nb] == v0.camera_anchor[b]);
        } else {
            if v1.camera_anchor.dom().contains(nb) {
                let id0 = choose|id: u64|
                    #[trigger] pairs_to_map(pm.camera_anchor).dom().contains(id)
                        && phi.dom().contains(id) && phi[id] == nb;
                assert(id0 == b);
            }
        }
        if v0.player.dom().contains(b) {
            assert(v1.player[nb] == v0.player[b]);
        } else {
            if v1.player.dom().contains(nb) {
                let id0 = choose|id: u64|
                    #[trigger] pairs_to_map(pm.player).dom().contains(id) && phi.dom().contains(id)
                        && phi[id] == nb;
                assert(id0 == b);
            }
        }
        if v0.collider.dom().contains(b) {
            assert(v1.collider[nb] == v0.collider[b]);
        } else {
            if v1.collider.dom().contains(nb) {
                let id0 = choose|id: u64|
                    #[trigger] pairs_to_map(pm.collider).dom().contains(id)
                        && phi.dom().contains(id) && phi[id] == nb;
                assert(id0 == b);
            }
        }
        if v0.tile_map.dom().contains(b) {
            assert(v1.tile_map[nb] == v0.tile_map[b]);
        } else {
            if v1.tile_map.dom().contains(nb) {
                let id0 = choose|id: u64|
                    #[trigger] pairs_to_map(pm.tile_map).dom().contains(id)
                        && phi.dom().contains(id) && phi[id] == nb;
                assert(id0 == b);
            }
        }
        assert(group_of(v1, phi[b]) =~= persist_group(group_of(v0, b)));
    }
    assert forall|nb: u64| #[trigger] v1.live.contains(nb) implies exists|b: u64|
        nonempty_ids(v0).contains(b) && #[trigger] phi.dom().contains(b) && phi[b] == nb by {
        let b0 = choose|id: u64| #[trigger] phi.dom().contains(id) && phi[id] == nb;
        assert(nonempty_ids(v0).contains(b0) && phi.dom().contains(b0) && phi[b0] == nb);
    }
}

/// DUPLICATE FIDELITY LAW.  A view produced by `duplicate_entity` gives
/// the new entity exactly the source's component bundle, value for
/// value, and leaves every other entity's bundle untouched; afterwards
/// the two bundles are independent values.
pub proof fn lemma_duplicate_fidelity(v0: StoreView, v1: StoreView, src: u64, nb: u64)
    requires
        view_inv(v0),
        !v0.live.contains(nb),
        v1.live == v0.live.insert(nb),
        v1.pos == if v0.pos.dom().contains(src) {
            v0.pos.insert(nb, v0.pos[src])
        } else {
            v0.pos
        },
        v1.vel == if v0.vel.dom().contains(src) {
            v0.vel.insert(nb, v0.vel[src])
        } else {
            v0.vel
        },
        v1.render == if v0.render.dom().contains(src) {
            v0.render.insert(nb, v0.render[src])
        } else {
            v0.render
        },
        v1.camera_anchor == if v0.camera_anchor.dom().contains(src) {
            v0.camera_anchor.insert(nb, v0.camera_anchor[src])
        } else {
            v0.camera_anchor
        },
        v1.player == if v0.player.dom().contains(src) {
            v0.player.insert(nb, v0.player[src])
        } else {
            v0.player
        },
        v1.collider == if v0.collider.dom().contains(src) {
            v0.collider.insert(nb, v0.collider[src])
        } else {
            v0.collider
        },
        v1.tile_map == if v0.tile_map.dom().contains(src) {
            v0.tile_map.insert(nb, v0.tile_map[src])
        } else {
            v0.tile_map
        },
    ensures
        group_of(v1, nb) == group_of(v0, src),
        forall|b: u64| b != nb ==> group_of(v1, b) == group_of(v0, b),
{
    assert(group_of(v1, nb) =~= group_of(v0, src));
    assert forall|b: u64| b != nb implies group_of(v1, b) == group_of(v0, b) by {
        assert(group_of(v1, b) =~= group_of(v0, b));
    }
}

} // verus!
