//! A registry of the game's live entities, keyed by handed-out ids, with a
//! per-frame update pass over all of them.

use vstd::prelude::*;

use crate::hero::Hero;
use crate::hero::hero_in_range;
use crate::hero::hero_tick;
use crate::input_manager::InputManager;
use crate::random_map::RandomMap;

verus! {

/// A live entity: the tagged set of everything the registry can hold.
pub enum GameEntity {
    Hero(Hero),
    Level(RandomMap),
}

/// What one update tick does to an entity: the hero handles input and
/// animates; a registered map never changes.
pub open spec fn entity_tick(e: GameEntity, map: RandomMap, im: InputManager) -> GameEntity {
    match e {
        GameEntity::Hero(h) => GameEntity::Hero(hero_tick(h, map, im)),
        GameEntity::Level(m) => GameEntity::Level(m),
    }
}

/// An entity the update tick accepts: a hero with a non-negative position
/// that arithmetic cannot overflow; maps are always fine.
pub open spec fn entity_in_range(e: GameEntity) -> bool {
    match e {
        GameEntity::Hero(h) => 0 <= h.position.x && 0 <= h.position.y && hero_in_range(h),
        GameEntity::Level(_) => true,
    }
}

/// The registered entities with their ids, and the id counter the next
/// registration draws from.
pub struct GameObjectManager {
    pub list: Vec<(usize, GameEntity)>,
    pub next_id: usize,
}

impl GameObjectManager {
    /// Ids are distinct and never ahead of the counter, so a fresh
    /// registration cannot collide.
    pub open spec fn wf(self) -> bool {
        &&& forall|i: int, j: int|
            0 <= i < self.list@.len() && 0 <= j < self.list@.len() && i != j ==> (
            #[trigger] self.list@[i]).0 != (#[trigger] self.list@[j]).0
        &&& forall|i: int| 0 <= i < self.list@.len() ==> (#[trigger] self.list@[i]).0 <= self.next_id
    }

    /// An empty registry.
    pub fn new() -> (r: Self)
        ensures
            r.list@ == Seq::<(usize, GameEntity)>::empty(),
            r.next_id == 0,
            r.wf(),
    {
        GameObjectManager { list: Vec::new(), next_id: 0 }
    }

    /// Register an entity under a fresh id and hand the id back.
    pub fn regist(&mut self, game_object: GameEntity) -> (id: usize)
        requires
            old(self).wf(),
            old(self).next_id < usize::MAX,
        ensures
            final(self).wf(),
            id == old(self).next_id + 1,
            final(self).next_id == id,
            final(self).list@ == old(self).list@.push((id, game_object)),
    {
        self.next_id = self.next_id + 1;
        let id = self.next_id;
        self.list.push((id, game_object));
        proof {
            assert forall|i: int, j: int|
                0 <= i < self.list@.len() && 0 <= j < self.list@.len() && i != j implies (
            #[trigger] self.list@[i]).0 != (#[trigger] self.list@[j]).0 by {
                if i < old(self).list@.len() && j < old(self).list@.len() {
                    assert(self.list@[i] == old(self).list@[i]);
                    assert(self.list@[j] == old(self).list@[j]);
                } else if i < old(self).list@.len() {
                    assert(self.list@[i] == old(self).list@[i]);
                    assert(self.list@[i].0 <= old(self).next_id);
                } else if j < old(self).list@.len() {
                    assert(self.list@[j] == old(self).list@[j]);
                    assert(self.list@[j].0 <= old(self).next_id);
                }
            };
        }
        id
    }

    /// Look an entity up by id.
    pub fn get_game_object(&self, id: usize) -> (r: Option<&GameEntity>)
        ensures
            match r {
                Some(e) => exists|k: int|
                    0 <= k < self.list@.len() && #[trigger] self.list@[k] == (id, *e),
                None => forall|k: int|
                    0 <= k < self.list@.len() ==> (#[trigger] self.list@[k]).0 != id,
            },
    {
        let mut k: usize = 0;
        while k < self.list.len()
            invariant
                k <= self.list@.len(),
                forall|i: int| 0 <= i < k ==> (#[trigger] self.list@[i]).0 != id,
            decreases self.list@.len() - k,
        {
            if self.list[k].0 == id {
                proof {
                    assert(self.list@[k as int] == (id, self.list@[k as int].1));
                }
                return Some(&self.list[k].1);
            }
            k = k + 1;
        }
        None
    }

    /// Run one update tick over every registered entity, in registration
    /// order, against the active map and the current input state.
    pub fn update(&mut self, map: &RandomMap, im: &InputManager)
        requires
            map.shape_wf(),
            forall|k: int|
                0 <= k < old(self).list@.len() ==> entity_in_range(
                    (#[trigger] old(self).list@[k]).1,
                ),
        ensures
            final(self).next_id == old(self).next_id,
            final(self).list@.len() == old(self).list@.len(),
            forall|k: int|
                0 <= k < old(self).list@.len() ==> #[trigger] final(self).list@[k] == (
                    old(self).list@[k].0,
                    entity_tick(old(self).list@[k].1, *map, *im),
                ),
    {
        let mut k: usize = 0;
        while k < self.list.len()
            invariant
                map.shape_wf(),
                k <= self.list@.len(),
                self.next_id == old(self).next_id,
                self.list@.len() == old(self).list@.len(),
                forall|i: int|
                    0 <= i < old(self).list@.len() ==> entity_in_range(
                        (#[trigger] old(self).list@[i]).1,
                    ),
                forall|i: int|
                    k <= i < old(self).list@.len() ==> #[trigger] self.list@[i] == old(
                        self,
                    ).list@[i],
                forall|i: int|
                    0 <= i < k ==> #[trigger] self.list@[i] == (
                        old(self).list@[i].0,
                        entity_tick(old(self).list@[i].1, *map, *im),
                    ),
            decreases self.list@.len() - k,
        {
            let entry = &mut self.list[k];
            match &mut entry.1 {
                GameEntity::Hero(h) => {
                    h.update(map, im);
                },
                GameEntity::Level(_) => {},
            }
            k = k + 1;
        }
    }
}

} // verus!
