//! Saving, loading and duplication over a real world.
use en_core::components::ColorRGBA;
use en_core::components::F32Bits;
use en_core::components::Player;
use en_core::components::Pos;
use en_core::components::Render;
use en_core::components::SpriteId;
use en_core::components::TileMap;
use en_core::components::Vel;
use en_core::components::BITS_1_0;
use en_core::store::load_scene;
use en_core::store::save_scene;
use en_core::store::Store;

fn f(x: f32) -> F32Bits {
    F32Bits(x.to_bits())
}

fn white() -> ColorRGBA {
    ColorRGBA { r: F32Bits(BITS_1_0), g: F32Bits(BITS_1_0), b: F32Bits(BITS_1_0), a: F32Bits(BITS_1_0) }
}

#[test]
fn round_trip_two_entities() {
    // Store with E1 = {Pos(1,2), Render(white)} and E2 = {Pos(5,5)}.
    let mut store = Store::new();
    let e1 = store.spawn();
    assert!(store.insert_pos(e1, Pos { x: f(1.0), y: f(2.0) }));
    let mut ren = Render::default();
    ren.color = white();
    assert!(store.insert_render(e1, ren));
    let e2 = store.spawn();
    assert!(store.insert_pos(e2, Pos { x: f(5.0), y: f(5.0) }));

    let bytes = save_scene(&store);
    assert!(load_scene(&mut store, &bytes));

    let ids = store.entities();
    assert_eq!(ids.len(), 2);
    assert_eq!(store.len(), 2);
    let mut with_render = 0;
    let mut plain = 0;
    for id in ids {
        match store.get_render(id) {
            Some(r) => {
                with_render += 1;
                assert_eq!(store.get_pos(id), Some(Pos { x: f(1.0), y: f(2.0) }));
                assert_eq!(r.color, white());
                assert_eq!(r.cached_sprite, None);
                assert!(store.get_vel(id).is_none());
                assert!(store.get_player(id).is_none());
                assert!(store.get_collider(id).is_none());
                assert!(store.get_camera_anchor(id).is_none());
                assert!(store.get_tile_map(id).is_none());
            }
            None => {
                plain += 1;
                assert_eq!(store.get_pos(id), Some(Pos { x: f(5.0), y: f(5.0) }));
                assert!(store.get_vel(id).is_none());
            }
        }
    }
    assert_eq!(with_render, 1);
    assert_eq!(plain, 1);
}

#[test]
fn round_trip_all_kinds() {
    let mut store = Store::new();
    let e = store.spawn();
    assert!(store.insert_pos(e, Pos { x: f(-3.25), y: f(7.5) }));
    assert!(store.insert_vel(e, Vel { x: f(0.5), y: f(-0.5), d: f(12.0) }));
    assert!(store.insert_player(e, Player { speed: f(99.0) }));
    let mut tm = TileMap::default();
    assert!(tm.paint(3, 4, 7));
    assert!(store.insert_tile_map(e, tm));

    let bytes = save_scene(&store);
    assert!(load_scene(&mut store, &bytes));

    let ids = store.entities();
    assert_eq!(ids.len(), 1);
    let id = ids[0];
    assert_eq!(store.get_pos(id), Some(Pos { x: f(-3.25), y: f(7.5) }));
    assert_eq!(store.get_vel(id), Some(Vel { x: f(0.5), y: f(-0.5), d: f(12.0) }));
    assert_eq!(store.get_player(id), Some(Player { speed: f(99.0) }));
    let tm2 = store.get_tile_map(id).unwrap();
    assert_eq!(tm2.tile_at(3, 4), Some(7));
    assert_eq!(tm2.tile_at(0, 0), Some(0));
    assert_eq!(tm2.width, 100);
    assert_eq!(tm2.tiles.len(), 10000);
}

#[test]
fn empty_entity_is_dropped_on_round_trip() {
    // An entity with no components is not represented in the scene and
    // silently vanishes across a save/load round trip.
    let mut store = Store::new();
    let _placeholder = store.spawn();
    let e = store.spawn();
    assert!(store.insert_pos(e, Pos { x: f(1.0), y: f(1.0) }));
    assert_eq!(store.len(), 2);

    let bytes = save_scene(&store);
    assert!(load_scene(&mut store, &bytes));
    assert_eq!(store.len(), 1);
}

#[test]
fn corrupt_payload_leaves_store_empty() {
    let mut store = Store::new();
    let e = store.spawn();
    assert!(store.insert_pos(e, Pos { x: f(1.0), y: f(2.0) }));

    let garbage: Vec<u8> = vec![0xc1, 0xff, 0x00, 0x33];
    assert!(!load_scene(&mut store, &garbage));
    assert_eq!(store.len(), 0);
    assert_eq!(store.entities().len(), 0);
}

#[test]
fn truncated_payload_leaves_store_empty() {
    let mut store = Store::new();
    let e = store.spawn();
    assert!(store.insert_pos(e, Pos { x: f(1.0), y: f(2.0) }));
    let mut bytes = save_scene(&store);
    bytes.truncate(bytes.len() - 3);
    assert!(!load_scene(&mut store, &bytes));
    assert_eq!(store.len(), 0);
}

#[test]
fn trailing_bytes_are_an_error() {
    let mut store = Store::new();
    let e = store.spawn();
    assert!(store.insert_pos(e, Pos { x: f(1.0), y: f(2.0) }));
    let mut bytes = save_scene(&store);
    bytes.push(0x00);
    assert!(!load_scene(&mut store, &bytes));
    assert_eq!(store.len(), 0);
}

#[test]
fn empty_scene_payload_bytes() {
    // The persisted form of an empty world: a seven-entry map from kind
    // name to an empty pair array, in declaration order.
    let store = Store::new();
    let bytes = save_scene(&store);
    let mut expect: Vec<u8> = vec![0x87];
    expect.push(0xa3);
    expect.extend_from_slice(b"Pos");
    expect.push(0x90);
    expect.push(0xa3);
    expect.extend_from_slice(b"Vel");
    expect.push(0x90);
    expect.push(0xa6);
    expect.extend_from_slice(b"Render");
    expect.push(0x90);
    expect.push(0xac);
    expect.extend_from_slice(b"CameraAnchor");
    expect.push(0x90);
    expect.push(0xa6);
    expect.extend_from_slice(b"Player");
    expect.push(0x90);
    expect.push(0xa8);
    expect.extend_from_slice(b"Collider");
    expect.push(0x90);
    expect.push(0xa7);
    expect.extend_from_slice(b"TileMap");
    expect.push(0x90);
    assert_eq!(bytes, expect);
}

#[test]
fn unknown_kinds_and_fields_fall_back() {
    // A payload holding an unknown kind and a Pos record with an unknown
    // field and a missing field still loads: unknown entries are
    // skipped, missing fields take their defaults.
    let mut bytes: Vec<u8> = vec![0x82];
    // "Mystery": [] -- an unknown kind, skipped whole
    bytes.push(0xa7);
    bytes.extend_from_slice(b"Mystery");
    bytes.push(0x90);
    // "Pos": [[9, {"q": 1, "y": f32(2.0)}]]
    bytes.push(0xa3);
    bytes.extend_from_slice(b"Pos");
    bytes.push(0x91);
    bytes.push(0x92);
    bytes.push(0x09);
    bytes.push(0x82);
    bytes.push(0xa1);
    bytes.push(b'q');
    bytes.push(0x01);
    bytes.push(0xa1);
    bytes.push(b'y');
    bytes.push(0xca);
    bytes.extend_from_slice(&2.0f32.to_bits().to_be_bytes());
    let mut store = Store::new();
    assert!(load_scene(&mut store, &bytes));
    let ids = store.entities();
    assert_eq!(ids.len(), 1);
    let p = store.get_pos(ids[0]).unwrap();
    assert_eq!(p.x, F32Bits(0));
    assert_eq!(p.y, f(2.0));
}

#[test]
fn duplicate_copies_every_kind_present() {
    let mut store = Store::new();
    let src = store.spawn();
    assert!(store.insert_pos(src, Pos { x: f(8.0), y: f(9.0) }));
    let mut ren = Render::default();
    ren.s_id = SpriteId(4);
    assert!(store.insert_render(src, ren));

    let copy = store.duplicate_entity(src);
    assert_ne!(copy, src);
    assert_eq!(store.len(), 2);
    assert_eq!(store.get_pos(copy), Some(Pos { x: f(8.0), y: f(9.0) }));
    assert_eq!(store.get_render(copy).unwrap().s_id, SpriteId(4));
    assert!(store.get_vel(copy).is_none());

    // Mutating the source afterwards never changes the copy.
    assert!(store.insert_pos(src, Pos { x: f(0.0), y: f(0.0) }));
    assert_eq!(store.get_pos(copy), Some(Pos { x: f(8.0), y: f(9.0) }));
}

#[test]
fn duplicate_of_dead_entity_is_empty() {
    let mut store = Store::new();
    let src = store.spawn();
    assert!(store.insert_pos(src, Pos { x: f(1.0), y: f(1.0) }));
    assert!(store.despawn(src));

    let copy = store.duplicate_entity(src);
    assert!(store.is_live(copy));
    assert!(store.get_pos(copy).is_none());
    assert!(store.get_render(copy).is_none());
}

#[test]
fn remove_takes_one_kind_off() {
    let mut store = Store::new();
    let e = store.spawn();
    assert!(store.insert_pos(e, Pos { x: f(1.0), y: f(1.0) }));
    assert!(store.insert_player(e, Player::default()));
    store.remove_player(e);
    assert!(store.get_player(e).is_none());
    assert!(store.get_pos(e).is_some());
}
