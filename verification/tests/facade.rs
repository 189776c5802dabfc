//! The schema registry, the field facade, the system dispatch, and the
//! smaller pieces around them.
use en_core::components::CameraAnchor;
use en_core::components::Collider;
use en_core::components::ColorRGBA;
use en_core::components::F32Bits;
use en_core::components::Player;
use en_core::components::Pos;
use en_core::components::Render;
use en_core::components::SpriteId;
use en_core::components::TileMap;
use en_core::components::Vel;
use en_core::config::window_conf;
use en_core::reflect::field_count;
use en_core::reflect::field_name;
use en_core::reflect::field_shape;
use en_core::reflect::get_field;
use en_core::reflect::set_field;
use en_core::reflect::FieldShape;
use en_core::reflect::FieldValue;
use en_core::registry::default_component;
use en_core::registry::kind_names;
use en_core::registry::ComponentValue;
use en_core::registry::KindId;
use en_core::sprites::SpriteCatalog;
use en_core::store::Store;
use en_core::systems::player::player_control;
use en_core::systems::player::InputState;
use en_core::systems::run_all_systems;
use en_core::systems::SysCtx;
use en_core::systems::SystemRegistry;

fn f(x: f32) -> F32Bits {
    F32Bits(x.to_bits())
}

#[test]
fn vel_default_has_declared_damping() {
    // Vel { x, y, d = 10.0 } default-constructed: d == 10.0, x == y == 0.0.
    let v = Vel::default();
    assert_eq!(v.d, f(10.0));
    assert_eq!(v.x, f(0.0));
    assert_eq!(v.y, f(0.0));
    assert_eq!(v.x.0, 0);
}

#[test]
fn defaults_follow_the_schema() {
    let r = Render::default();
    assert_eq!(r.w, f(128.0));
    assert_eq!(r.h, f(128.0));
    assert_eq!(r.color.r, f(1.0));
    assert_eq!(r.color.a, f(1.0));
    assert_eq!(r.layer, f(0.0));
    assert!(!r.flip_x && !r.flip_y);
    assert_eq!(r.s_id, SpriteId(0));
    assert_eq!(r.cached_sprite, None);
    let c = CameraAnchor::default();
    assert_eq!(c.zoom, f(1.0));
    assert_eq!(c.smoothness, f(1.0));
    let p = Player::default();
    assert_eq!(p.speed, f(50.0));
    let col = Collider::default();
    assert_eq!(col.w, f(128.0));
    assert!(col.is_static);
    let t = TileMap::default();
    assert_eq!(t.width, 100);
    assert_eq!(t.height, 100);
    assert_eq!(t.tile_size, f(128.0));
    assert_eq!(t.tiles.len(), 10000);
}

#[test]
fn defaults_are_independent_values() {
    // Constructing a kind's default twice yields independently mutable
    // values: mutating one never affects the other.
    let mut a = TileMap::default();
    let b = TileMap::default();
    assert!(a.paint(1, 1, 9));
    assert_eq!(a.tile_at(1, 1), Some(9));
    assert_eq!(b.tile_at(1, 1), Some(0));

    let mut ra = Render::default();
    let rb = Render::default();
    ra.color = ColorRGBA { r: f(0.5), g: f(0.5), b: f(0.5), a: f(0.5) };
    assert_eq!(rb.color.r, f(1.0));
}

#[test]
fn kind_names_in_declaration_order() {
    let names = kind_names();
    let expect = vec!["Pos", "Vel", "Render", "CameraAnchor", "Player", "Collider", "TileMap"];
    assert_eq!(names.len(), expect.len());
    for (n, e) in names.iter().zip(expect.iter()) {
        assert_eq!(n.as_str(), *e);
    }
}

#[test]
fn default_component_matches_kind() {
    let c = default_component(KindId::Vel);
    match c {
        ComponentValue::Vel(v) => assert_eq!(v.d, f(10.0)),
        _ => panic!("wrong kind"),
    }
    let t = default_component(KindId::TileMap);
    match t {
        ComponentValue::TileMap(tm) => assert_eq!(tm.tiles.len(), 10000),
        _ => panic!("wrong kind"),
    }
}

#[test]
fn field_lists_follow_declaration_order() {
    assert_eq!(field_count(KindId::Pos), 2);
    assert_eq!(field_name(KindId::Pos, 0).unwrap(), "x");
    assert_eq!(field_name(KindId::Pos, 1).unwrap(), "y");
    assert!(field_name(KindId::Pos, 2).is_none());
    assert_eq!(field_count(KindId::Render), 8);
    assert_eq!(field_name(KindId::Render, 0).unwrap(), "s_id");
    assert_eq!(field_name(KindId::Render, 3).unwrap(), "color");
    assert_eq!(field_name(KindId::Render, 7).unwrap(), "cached_sprite");
    assert_eq!(field_shape(KindId::Render, 0), Some(FieldShape::Sprite));
    assert_eq!(field_shape(KindId::Render, 3), Some(FieldShape::Color4));
    assert_eq!(field_shape(KindId::Render, 5), Some(FieldShape::Bool));
    // the cached slot and the tile grid are outside the probe set
    assert_eq!(field_shape(KindId::Render, 7), None);
    assert_eq!(field_shape(KindId::TileMap, 4), None);
    assert_eq!(field_shape(KindId::TileMap, 0), Some(FieldShape::USize));
}

#[test]
fn get_and_set_round_trip_a_field() {
    let c = ComponentValue::Pos(Pos { x: f(1.0), y: f(2.0) });
    assert_eq!(get_field(&c, 0), Some(FieldValue::F32(f(1.0))));
    let (c2, ok) = set_field(c, 1, FieldValue::F32(f(9.0)));
    assert!(ok);
    assert_eq!(get_field(&c2, 1), Some(FieldValue::F32(f(9.0))));
    assert_eq!(get_field(&c2, 0), Some(FieldValue::F32(f(1.0))));
}

#[test]
fn wrong_shape_is_rejected() {
    let c = ComponentValue::Pos(Pos { x: f(1.0), y: f(2.0) });
    let (c2, ok) = set_field(c, 0, FieldValue::Bool(true));
    assert!(!ok);
    assert_eq!(get_field(&c2, 0), Some(FieldValue::F32(f(1.0))));
    let (c3, ok3) = set_field(c2, 99, FieldValue::F32(f(0.0)));
    assert!(!ok3);
    assert_eq!(get_field(&c3, 1), Some(FieldValue::F32(f(2.0))));
}

#[test]
fn editing_sprite_handle_clears_render_cache() {
    let mut r = Render::default();
    r.refresh_cache(10);
    assert_eq!(r.cached_sprite, Some(0));
    let c = ComponentValue::Render(r);
    let (c2, ok) = set_field(c, 0, FieldValue::Sprite(SpriteId(5)));
    assert!(ok);
    match c2 {
        ComponentValue::Render(r2) => {
            assert_eq!(r2.s_id, SpriteId(5));
            assert_eq!(r2.cached_sprite, None);
        }
        _ => panic!("wrong kind"),
    }
}

#[test]
fn editing_another_render_field_keeps_cache() {
    let mut r = Render::default();
    r.refresh_cache(10);
    let c = ComponentValue::Render(r);
    let (c2, ok) = set_field(c, 4, FieldValue::F32(f(3.0)));
    assert!(ok);
    match c2 {
        ComponentValue::Render(r2) => {
            assert_eq!(r2.layer, f(3.0));
            assert_eq!(r2.cached_sprite, Some(0));
        }
        _ => panic!("wrong kind"),
    }
}

#[test]
fn cache_refresh_resolves_handle_in_range() {
    let mut r = Render::default();
    r.s_id = SpriteId(7);
    r.refresh_cache(5);
    assert_eq!(r.cached_sprite, None);
    r.refresh_cache(8);
    assert_eq!(r.cached_sprite, Some(7));
    r.s_id = SpriteId(2);
    r.refresh_cache(8);
    assert_eq!(r.cached_sprite, Some(7));
    r.invalidate_cache();
    r.refresh_cache(8);
    assert_eq!(r.cached_sprite, Some(2));
}

#[test]
fn tile_painting_respects_the_grid() {
    let mut t = TileMap::default();
    assert!(t.paint(0, 0, 3));
    assert!(t.paint(99, 99, 4));
    assert!(!t.paint(100, 0, 5));
    assert!(!t.paint(-1, 0, 5));
    assert_eq!(t.tile_at(0, 0), Some(3));
    assert_eq!(t.tile_at(99, 99), Some(4));
    assert_eq!(t.tile_at(100, 0), None);
    assert_eq!(t.tile_at(0, -1), None);
}

fn count_system(mut ctx: SysCtx) -> SysCtx {
    ctx.dt = F32Bits(ctx.dt.0 + 1);
    ctx
}

fn hundred_system(mut ctx: SysCtx) -> SysCtx {
    ctx.dt = F32Bits(ctx.dt.0 + 100);
    ctx
}

#[test]
fn dispatch_runs_each_registered_system_once() {
    // Every registered descriptor is invoked exactly once per pass,
    // however many were declared.
    let mut reg: SystemRegistry<fn(SysCtx) -> SysCtx> = SystemRegistry::new();
    reg.register("count_a".to_owned(), count_system);
    reg.register("hundred".to_owned(), hundred_system);
    reg.register("count_b".to_owned(), count_system);
    assert_eq!(reg.len(), 3);
    assert_eq!(reg.name_at(0).unwrap().as_str(), "count_a");
    assert_eq!(reg.name_at(1).unwrap().as_str(), "hundred");
    assert_eq!(reg.name_at(2).unwrap().as_str(), "count_b");

    let ctx = SysCtx { store: Store::new(), sprites: SpriteCatalog::new(), dt: F32Bits(0) };
    let out = run_all_systems(&reg, ctx);
    assert_eq!(out.dt.0, 102);
    let out2 = run_all_systems(&reg, out);
    assert_eq!(out2.dt.0, 204);
}

#[test]
fn empty_registry_dispatch_is_identity() {
    let reg: SystemRegistry<fn(SysCtx) -> SysCtx> = SystemRegistry::new();
    let ctx = SysCtx { store: Store::new(), sprites: SpriteCatalog::new(), dt: F32Bits(41) };
    let out = run_all_systems(&reg, ctx);
    assert_eq!(out.dt.0, 41);
}

#[test]
fn player_control_turns_keys_into_intent() {
    let mut r = Render::default();
    let mv = player_control(
        InputState { right: true, left: false, up: false, down: true },
        &mut r,
    );
    assert_eq!(mv, (1, -1));
    assert!(!r.flip_x);

    let mv2 = player_control(
        InputState { right: false, left: true, up: true, down: false },
        &mut r,
    );
    assert_eq!(mv2, (-1, 1));
    assert!(r.flip_x);

    // no horizontal movement keeps the facing
    let mv3 = player_control(
        InputState { right: true, left: true, up: false, down: false },
        &mut r,
    );
    assert_eq!(mv3, (0, 0));
    assert!(r.flip_x);
}

#[test]
fn sprite_catalog_hands_out_sequential_handles() {
    let mut cat = SpriteCatalog::new();
    assert_eq!(cat.sprite_count(), 0);
    assert_eq!(cat.add_sprite("hero".to_owned()), 0);
    assert_eq!(cat.add_sprite("tree_leaf".to_owned()), 1);
    assert_eq!(cat.sprite_count(), 2);
    assert_eq!(cat.name_of(0).unwrap().as_str(), "hero");
    assert_eq!(cat.name_of(1).unwrap().as_str(), "tree_leaf");
    assert!(cat.name_of(2).is_none());
}

#[test]
fn window_settings_are_full_hd() {
    let c = window_conf();
    assert_eq!(c.title, "En game");
    assert_eq!(c.width, 1920);
    assert_eq!(c.height, 1080);
    assert_eq!(c.sample_count, 0);
}
