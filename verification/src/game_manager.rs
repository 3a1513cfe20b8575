//! The top-level game state: the active map as a typed handle, the entity
//! registry, and the camera, wired together by one update tick per frame.
//!
//! Input state, screen size, draw offset, and randomness are passed in
//! explicitly rather than kept in hidden global singletons, so every tick
//! is a plain function of its inputs.

use vstd::prelude::*;

use crate::camera::Camera;
use crate::game_object_manager::GameEntity;
use crate::game_object_manager::GameObjectManager;
use crate::game_object_manager::entity_in_range;
use crate::game_object_manager::entity_tick;
use crate::hero::Animation;
use crate::hero::Hero;
use crate::input_manager::InputManager;
use crate::map_component::MapComponent;
use crate::random_map::RandomMap;
use crate::random_map::TILE_PIXELS;
use crate::random_map::cell;
use crate::random_map::corrected;
use crate::random_map::in_grid;
use crate::random_source::RandomSource;
use crate::rect::Rect;
use crate::vector2::Vec2;
use crate::vector2::div_toward_zero;

verus! {

/// A coordinate small enough that camera arithmetic cannot overflow, even
/// on 32-bit targets; every pixel coordinate of a generated map fits with
/// a wide margin.
pub open spec fn coord_small(v: int) -> bool {
    -0x0100_0000 <= v <= 0x0100_0000
}

/// An entity whose coordinates are small in the sense of `coord_small`.
pub open spec fn entity_small(e: GameEntity) -> bool {
    match e {
        GameEntity::Hero(h) => coord_small(h.position.x as int) && coord_small(h.position.y as int),
        GameEntity::Level(_) => true,
    }
}

/// A freshly spawned hero: idle, placed on a room floor cell in pixel
/// units. The standard-sized map always places rooms, so the spawn lookup
/// cannot come back empty.
pub open spec fn hero_spawned_ok(h: Hero, map: RandomMap) -> bool {
    &&& h.anime == Animation::Idle && !h.animating && h.anime_frame == 0
    &&& exists|cx: int, cy: int|
        in_grid(map.spec_width(), map.spec_height(), cx, cy) && #[trigger] cell(map.map@, cx, cy)
            == MapComponent::Room && h.position.x == TILE_PIXELS * cx && h.position.y == TILE_PIXELS
            * cy
}

/// The game state: the generated map held as a typed handle, the entity
/// registry holding the hero, and the main camera.
pub struct GameManager {
    pub gom: GameObjectManager,
    pub main_camera: Camera,
    pub map: RandomMap,
    pub id_hero: usize,
}

impl GameManager {
    /// The registry is sound and the hero id resolves to a hero entity.
    pub open spec fn wf(self) -> bool {
        &&& self.map.wf()
        &&& self.gom.wf()
        &&& exists|k: int|
            0 <= k < self.gom.list@.len() && (#[trigger] self.gom.list@[k]).0 == self.id_hero
                && self.gom.list@[k].1 is Hero
    }

    /// The hero's position: the position of the entity registered under
    /// the hero id.
    pub open spec fn spec_hero_position(self) -> Vec2<isize> {
        let k = choose|k: int|
            0 <= k < self.gom.list@.len() && (#[trigger] self.gom.list@[k]).0 == self.id_hero
                && self.gom.list@[k].1 is Hero;
        match self.gom.list@[k].1 {
            GameEntity::Hero(h) => h.position,
            GameEntity::Level(_) => Vec2 { x: 0isize, y: 0isize },
        }
    }

    /// Build a fresh game: generate the standard-sized map, spawn the hero
    /// on a room floor cell, and register the hero.
    pub fn new<R: RandomSource>(rng: &mut R) -> (r: Self)
        ensures
            r.wf(),
            r.map.size.width == corrected(80),
            r.map.size.height == corrected(50),
            r.gom.list@.len() == 1,
            r.gom.list@[0].0 == r.id_hero,
            match r.gom.list@[0].1 {
                GameEntity::Hero(h) => hero_spawned_ok(h, r.map),
                GameEntity::Level(_) => false,
            },
            r.main_camera.offset == (Vec2 { x: 0isize, y: 0isize }),
    {
        let mut gom = GameObjectManager::new();

        let map = RandomMap::new(80, 50, rng);

        let mut hero = Hero::new();
        match map.respawnable_coord(rng) {
            Some(coord) => hero.teleport(&coord),
            None => {
                proof {
                    // The standard size always places a room, so an empty
                    // spawn lookup contradicts the map's contract.
                    let (cx, cy) = choose|cx: int, cy: int|
                        in_grid(map.spec_width(), map.spec_height(), cx, cy) && #[trigger] cell(
                            map.map@,
                            cx,
                            cy,
                        ) == MapComponent::Room;
                    assert(false);
                }
            },
        }

        let id_hero = gom.regist(GameEntity::Hero(hero));

        let r = GameManager { gom, main_camera: Camera::new(), map, id_hero };
        proof {
            assert(r.gom.list@[0].0 == r.id_hero && r.gom.list@[0].1 is Hero);
        }
        r
    }

    /// One frame: update every entity against the map and input, then aim
    /// the camera so the hero sits at the screen's center, publishing the
    /// offset into the caller's draw-offset slot.
    #[verifier::rlimit(100)]
    pub fn update(&mut self, im: &InputManager, screen: &Rect, draw_offset: &mut Vec2<isize>)
        requires
            old(self).wf(),
            forall|k: int|
                0 <= k < old(self).gom.list@.len() ==> entity_in_range(
                    (#[trigger] old(self).gom.list@[k]).1,
                ) && entity_small(old(self).gom.list@[k].1),
            coord_small(screen.x as int),
            coord_small(screen.y as int),
            screen.w <= 0x0100_0000,
            screen.h <= 0x0100_0000,
        ensures
            final(self).wf(),
            final(self).map == old(self).map,
            final(self).id_hero == old(self).id_hero,
            final(self).gom.next_id == old(self).gom.next_id,
            final(self).gom.list@.len() == old(self).gom.list@.len(),
            forall|k: int|
                0 <= k < old(self).gom.list@.len() ==> #[trigger] final(self).gom.list@[k] == (
                    old(self).gom.list@[k].0,
                    entity_tick(old(self).gom.list@[k].1, old(self).map, *im),
                ),
            final(self).main_camera.offset.x == div_toward_zero(screen.x + screen.w, 2) - 16
                - final(self).spec_hero_position().x,
            final(self).main_camera.offset.y == div_toward_zero(screen.y + screen.h, 2) - 16
                - final(self).spec_hero_position().y,
            *final(draw_offset) == final(self).main_camera.offset,
    {
        let ghost gold = old(self).gom.list@;
        self.gom.update(&self.map, im);
        proof {
            let ko = choose|k: int|
                0 <= k < gold.len() && (#[trigger] gold[k]).0 == old(self).id_hero && gold[k].1
                    is Hero;
            assert(self.gom.list@[ko] == (gold[ko].0, entity_tick(gold[ko].1, old(self).map, *im)));
            assert(self.gom.list@[ko].1 is Hero);
            assert forall|i: int, j: int|
                0 <= i < self.gom.list@.len() && 0 <= j < self.gom.list@.len() && i != j implies (
            #[trigger] self.gom.list@[i]).0 != (#[trigger] self.gom.list@[j]).0 by {
                assert(self.gom.list@[i] == (gold[i].0, entity_tick(gold[i].1, old(self).map, *im)));
                assert(self.gom.list@[j] == (gold[j].0, entity_tick(gold[j].1, old(self).map, *im)));
            };
        }

        let target = match self.gom.get_game_object(self.id_hero) {
            Some(entity) => match entity {
                GameEntity::Hero(h) => {
                    proof {
                        let k = choose|k: int|
                            0 <= k < self.gom.list@.len() && (#[trigger] self.gom.list@[k]).0
                                == self.id_hero && self.gom.list@[k].1 is Hero;
                        let k2 = choose|k2: int|
                            0 <= k2 < self.gom.list@.len() && #[trigger] self.gom.list@[k2] == (
                                self.id_hero,
                                GameEntity::Hero(*h),
                            );
                        assert(k == k2);
                        assert(h.position == self.spec_hero_position());
                        assert(self.gom.list@[k] == (gold[k].0, entity_tick(
                            gold[k].1,
                            old(self).map,
                            *im,
                        )));
                        assert(entity_small(gold[k].1));
                        assert(-0x0100_0004 <= h.position.x as int <= 0x0100_0004);
                        assert(-0x0100_0004 <= h.position.y as int <= 0x0100_0004);
                    }
                    h.position
                },
                GameEntity::Level(_) => {
                    proof {
                        let k = choose|k: int|
                            0 <= k < self.gom.list@.len() && (#[trigger] self.gom.list@[k]).0
                                == self.id_hero && self.gom.list@[k].1 is Hero;
                        let k2 = choose|k2: int|
                            0 <= k2 < self.gom.list@.len() && #[trigger] self.gom.list@[k2] == (
                                self.id_hero,
                                *entity,
                            );
                        assert(k == k2);
                        assert(false);
                    }
                    Vec2::new(0, 0)
                },
            },
            None => {
                proof {
                    let k = choose|k: int|
                        0 <= k < self.gom.list@.len() && (#[trigger] self.gom.list@[k]).0
                            == self.id_hero && self.gom.list@[k].1 is Hero;
                    assert(false);
                }
                Vec2::new(0, 0)
            },
        };

        let center = screen.center();
        self.main_camera.offset = center.sub(Vec2::new(16, 16)).sub(target);
        self.main_camera.set(draw_offset);
    }

    /// The registry entry of the hero.
    pub fn get_hero(&self) -> (r: Option<&GameEntity>)
        ensures
            match r {
                Some(e) => exists|k: int|
                    0 <= k < self.gom.list@.len() && #[trigger] self.gom.list@[k] == (
                        self.id_hero,
                        *e,
                    ),
                None => forall|k: int|
                    0 <= k < self.gom.list@.len() ==> (#[trigger] self.gom.list@[k]).0
                        != self.id_hero,
            },
    {
        self.gom.get_game_object(self.id_hero)
    }

    /// The active map, as a typed handle.
    pub fn get_map(&self) -> (r: &RandomMap)
        ensures
            r == &self.map,
    {
        &self.map
    }
}

} // verus!
