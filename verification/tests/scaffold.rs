//! Tests of the geometry primitives, input tracking, and the game state
//! wiring around the generator.

use wani_rogue::camera::Camera;
use wani_rogue::game_manager::GameManager;
use wani_rogue::game_object_manager::GameEntity;
use wani_rogue::game_object_manager::GameObjectManager;
use wani_rogue::hero::Animation;
use wani_rogue::hero::Hero;
use wani_rogue::input_manager::InputKey;
use wani_rogue::input_manager::InputManager;
use wani_rogue::map_component::MapComponent;
use wani_rogue::random_map::RandomMap;
use wani_rogue::random_source::Lcg;
use wani_rogue::random_source::RandomSource;
use wani_rogue::rect::Rect;
use wani_rogue::vector2::Vec2;

/// A stub source that always answers with the range's lower bound.
struct FloorRng;

impl RandomSource for FloorRng {
    fn next_in_range(&mut self, lo: isize, _hi: isize) -> isize {
        lo
    }
}

#[test]
fn vec2_arithmetic() {
    let a = Vec2::new(3isize, -2isize);
    let b = Vec2::new(10isize, 5isize);
    let s = a.add(b);
    assert_eq!((s.x, s.y), (13, 3));
    let d = b.sub(a);
    assert_eq!((d.x, d.y), (7, 7));
    let m = a.mul(4);
    assert_eq!((m.x, m.y), (12, -8));
    let q = Vec2::new(97isize, 64isize).div(32);
    assert_eq!((q.x, q.y), (3, 2));
}

#[test]
fn rect_edges_and_center() {
    let r = Rect::new(4, -6, 10, 3);
    assert_eq!(r.left(), 4);
    assert_eq!(r.right(), 14);
    assert_eq!(r.top(), -6);
    assert_eq!(r.bottom(), -3);
    let c = r.center();
    assert_eq!((c.x, c.y), (7, -1));
}

#[test]
fn center_and_div_round_toward_zero() {
    let r = Rect::new(-9, -9, 4, 4);
    let c = r.center();
    assert_eq!((c.x, c.y), (-2, -2), "(-5)/2 truncates toward zero");
    let q = Vec2::new(-65isize, 65isize).div(32);
    assert_eq!((q.x, q.y), (-2, 2));
}

#[test]
fn rect_slide_moves_the_corner() {
    let mut r = Rect::new(1, 2, 3, 4);
    r.slide(&Vec2::new(10, -20));
    assert_eq!((r.x, r.y, r.w, r.h), (11, -18, 3, 4));
}

#[test]
fn rect_contains_includes_both_edges() {
    let r = Rect::new(0, 0, 4, 4);
    assert!(r.contains(Vec2::new(0, 0)));
    assert!(r.contains(Vec2::new(4, 4)));
    assert!(!r.contains(Vec2::new(5, 2)));
    assert!(!r.contains(Vec2::new(-1, 2)));
}

#[test]
fn rect_contains_rect_tests_edge_spans() {
    let screen = Rect::new(0, 0, 100, 100);
    assert!(screen.contains_rect(Rect::new(10, 10, 5, 5)));
    assert!(screen.contains_rect(Rect::new(-3, 50, 10, 10)));
    assert!(!screen.contains_rect(Rect::new(200, 200, 5, 5)));
}

#[test]
fn input_manager_tracks_held_keys() {
    let mut im = InputManager::new();
    assert!(!im.get_key(InputKey::UP));
    im.key_down(38);
    assert!(im.get_key(InputKey::UP));
    im.key_down(87);
    im.key_up(38);
    assert!(im.get_key(InputKey::UP), "the other code for up is still held");
    im.key_up(87);
    assert!(!im.get_key(InputKey::UP));

    im.key_down(65);
    assert!(im.get_key(InputKey::LEFT));
    im.key_down(65);
    im.key_up(65);
    assert!(!im.get_key(InputKey::LEFT), "release drops every held copy of the code");

    im.key_down(40);
    im.key_down(68);
    assert!(im.get_key(InputKey::DOWN));
    assert!(im.get_key(InputKey::RIGHT));
}

#[test]
fn camera_publishes_its_offset() {
    let mut cam = Camera::new();
    assert_eq!((cam.offset.x, cam.offset.y), (0, 0));
    cam.offset = Vec2::new(12, -7);
    let mut slot = Vec2::new(0isize, 0isize);
    cam.set(&mut slot);
    assert_eq!((slot.x, slot.y), (12, -7));
}

#[test]
fn hero_teleport_and_animation() {
    let mut hero = Hero::new();
    assert_eq!((hero.position.x, hero.position.y), (0, 0));
    hero.teleport(&Vec2::new(96, 64));
    assert_eq!((hero.position.x, hero.position.y), (96, 64));

    let mut hero = Hero {
        position: Vec2::new(0isize, 0isize),
        anime: Animation::MoveRight { frame: 8 },
        animating: true,
        anime_frame: 0,
    };
    for step in 1..=8isize {
        hero.animate();
        assert_eq!(hero.position.x, 4 * step);
        assert_eq!(hero.anime_frame, step);
    }
    assert_eq!(hero.anime, Animation::Idle);
    hero.animating = true;
    hero.animate();
    assert!(!hero.animating, "an idle animation frame only clears the flag");
    assert_eq!(hero.position.x, 32, "the full walk moved exactly one tile");
}

#[test]
fn hero_input_is_blocked_by_walls() {
    // The minimum-size map from the floor source keeps one open cell at
    // (3, 1) walled in on all four sides: no input may start a walk.
    let map = RandomMap::new(0, 0, &mut FloorRng);
    assert_eq!(map.get_component(Vec2::new(3, 1)), Some(MapComponent::Corridor));

    let mut hero = Hero::new();
    hero.teleport(&Vec2::new(3 * 32, 32));
    let mut im = InputManager::new();
    im.key_down(38);
    im.key_down(37);
    hero.input_proc(&map, &im);
    assert!(!hero.animating);
    assert_eq!(hero.anime, Animation::Idle);
}

#[test]
fn hero_walks_into_open_cells() {
    // Find a room cell on a standard map and walk inside the room.
    let mut rng = Lcg::new(21);
    let map = RandomMap::new(80, 50, &mut rng);
    let spawn = map.respawnable_coord(&mut rng).expect("rooms were placed");
    let cx = spawn.x / 32;
    let cy = spawn.y / 32;

    // Probe a direction whose neighbor is open.
    let dirs = [(0isize, -1isize), (0, 1), (-1, 0), (1, 0)];
    let keys = [38usize, 40, 37, 39];
    let mut moved = false;
    for (i, &(dx, dy)) in dirs.iter().enumerate() {
        let neighbor = map.get_component(Vec2::new(cx + dx, cy + dy));
        if neighbor.is_some() && neighbor != Some(MapComponent::Wall) {
            let mut hero = Hero::new();
            hero.teleport(&spawn);
            let mut im = InputManager::new();
            im.key_down(keys[i]);
            hero.input_proc(&map, &im);
            assert!(hero.animating, "an open neighbor must start a walk");
            moved = true;
            break;
        }
    }
    assert!(moved, "a room cell always has an open neighbor");
}

#[test]
fn registry_hands_out_fresh_ids() {
    let mut gom = GameObjectManager::new();
    let id_a = gom.regist(GameEntity::Hero(Hero::new()));
    let id_b = gom.regist(GameEntity::Hero(Hero::new()));
    assert_ne!(id_a, id_b);
    assert!(gom.get_game_object(id_a).is_some());
    assert!(gom.get_game_object(id_b).is_some());
    assert!(gom.get_game_object(id_b + 1).is_none());
}

#[test]
fn game_manager_spawns_the_hero_on_room_floor() {
    let mut rng = Lcg::new(5);
    let gm = GameManager::new(&mut rng);
    let map = gm.get_map();
    assert_eq!((map.size.width, map.size.height), (83, 53));

    let hero_entry = gm.get_hero().expect("the hero is registered");
    match hero_entry {
        GameEntity::Hero(h) => {
            assert_eq!(h.position.x % 32, 0);
            assert_eq!(h.position.y % 32, 0);
            let cell = map.get_component(Vec2::new(h.position.x / 32, h.position.y / 32));
            assert_eq!(cell, Some(MapComponent::Room));
        },
        GameEntity::Level(_) => panic!("the hero id resolved to a map"),
    }
}

#[test]
fn game_manager_update_centers_the_camera_on_the_hero() {
    let mut rng = Lcg::new(5);
    let mut gm = GameManager::new(&mut rng);
    let im = InputManager::new();
    let screen = Rect::new(0, 0, 640, 480);
    let mut draw_offset = Vec2::new(0isize, 0isize);

    gm.update(&im, &screen, &mut draw_offset);

    let hero_pos = match gm.get_hero().expect("the hero is registered") {
        GameEntity::Hero(h) => h.position,
        GameEntity::Level(_) => panic!("the hero id resolved to a map"),
    };
    assert_eq!(gm.main_camera.offset.x, 640 / 2 - 16 - hero_pos.x);
    assert_eq!(gm.main_camera.offset.y, 480 / 2 - 16 - hero_pos.y);
    assert_eq!(draw_offset.x, gm.main_camera.offset.x);
    assert_eq!(draw_offset.y, gm.main_camera.offset.y);
}
