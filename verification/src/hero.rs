//! The playable character: pixel position, movement input handling against
//! the map's walls, and the frame-by-frame walk animation.

use vstd::prelude::*;

use crate::input_manager::InputKey;
use crate::input_manager::InputManager;
use crate::input_manager::spec_key;
use crate::map_component::MapComponent;
use crate::random_map::RandomMap;
use crate::random_map::cell;
use crate::random_map::in_grid;
use crate::vector2::Vec2;

verus! {

/// The walk animation in progress, if any, with its total frame count.
#[derive(Clone, Copy, PartialEq, Eq, Structural, Debug)]
pub enum Animation {
    Idle,
    MoveUp { frame: isize },
    MoveDown { frame: isize },
    MoveLeft { frame: isize },
    MoveRight { frame: isize },
    MoveUpLeft { frame: isize },
    MoveUpRight { frame: isize },
    MoveDownLeft { frame: isize },
    MoveDownRight { frame: isize },
}

/// The hero: a pixel position and the animation state driving it.
pub struct Hero {
    pub position: Vec2<isize>,
    pub anime: Animation,
    pub animating: bool,
    pub anime_frame: isize,
}

/// The horizontal input direction: right minus left.
pub open spec fn input_dx(im: InputManager) -> int {
    (if spec_key(im, InputKey::RIGHT) {
        1int
    } else {
        0int
    }) + (if spec_key(im, InputKey::LEFT) {
        -1int
    } else {
        0int
    })
}

/// The vertical input direction: down minus up.
pub open spec fn input_dy(im: InputManager) -> int {
    (if spec_key(im, InputKey::DOWN) {
        1int
    } else {
        0int
    }) + (if spec_key(im, InputKey::UP) {
        -1int
    } else {
        0int
    })
}

/// A grid cell the hero may step onto: inside the grid and not a wall.
pub open spec fn step_open(map: RandomMap, cx: int, cy: int) -> bool {
    in_grid(map.spec_width(), map.spec_height(), cx, cy) && cell(map.map@, cx, cy)
        != MapComponent::Wall
}

/// The eight-frame walk animation for a unit move direction.
pub open spec fn anim_for(dx: int, dy: int) -> Animation {
    if dx > 0 {
        if dy > 0 {
            Animation::MoveDownRight { frame: 8 }
        } else if dy < 0 {
            Animation::MoveUpRight { frame: 8 }
        } else {
            Animation::MoveRight { frame: 8 }
        }
    } else if dx < 0 {
        if dy > 0 {
            Animation::MoveDownLeft { frame: 8 }
        } else if dy < 0 {
            Animation::MoveUpLeft { frame: 8 }
        } else {
            Animation::MoveLeft { frame: 8 }
        }
    } else {
        if dy > 0 {
            Animation::MoveDown { frame: 8 }
        } else {
            Animation::MoveUp { frame: 8 }
        }
    }
}

/// What handling movement input does to the hero: take the pressed
/// direction, keep each axis only if the neighboring cell on that axis is
/// open, and start the matching walk animation when the combined target
/// cell is open too. The position itself does not move here; the
/// animation moves it over the following frames.
pub open spec fn input_step(h: Hero, map: RandomMap, im: InputManager) -> Hero {
    let dx = input_dx(im);
    let dy = input_dy(im);
    if dx == 0 && dy == 0 {
        h
    } else {
        let gx = h.position.x / 32;
        let gy = h.position.y / 32;
        let mdx = if step_open(map, gx + dx, gy) {
            dx
        } else {
            0int
        };
        let mdy = if step_open(map, gx, gy + dy) {
            dy
        } else {
            0int
        };
        if mdx == 0 && mdy == 0 {
            h
        } else if step_open(map, gx + mdx, gy + mdy) {
            Hero { anime: anim_for(mdx, mdy), animating: true, anime_frame: 0, ..h }
        } else {
            h
        }
    }
}

/// The per-frame pixel step of an animation: four pixels along its
/// direction, nothing for `Idle`.
pub open spec fn anim_dx(a: Animation) -> int {
    match a {
        Animation::MoveLeft { .. } | Animation::MoveUpLeft { .. } | Animation::MoveDownLeft {
            ..
        } => -4,
        Animation::MoveRight { .. } | Animation::MoveUpRight { .. } | Animation::MoveDownRight {
            ..
        } => 4,
        _ => 0,
    }
}

/// The per-frame vertical pixel step of an animation.
pub open spec fn anim_dy(a: Animation) -> int {
    match a {
        Animation::MoveUp { .. } | Animation::MoveUpLeft { .. } | Animation::MoveUpRight { .. }
            => -4,
        Animation::MoveDown { .. } | Animation::MoveDownLeft { .. } | Animation::MoveDownRight {
            ..
        } => 4,
        _ => 0,
    }
}

/// The total frame count of an animation; zero for `Idle`.
pub open spec fn anim_frames(a: Animation) -> int {
    match a {
        Animation::Idle => 0,
        Animation::MoveUp { frame } => frame as int,
        Animation::MoveDown { frame } => frame as int,
        Animation::MoveLeft { frame } => frame as int,
        Animation::MoveRight { frame } => frame as int,
        Animation::MoveUpLeft { frame } => frame as int,
        Animation::MoveUpRight { frame } => frame as int,
        Animation::MoveDownLeft { frame } => frame as int,
        Animation::MoveDownRight { frame } => frame as int,
    }
}

/// What one animation frame does to the hero: advance the frame counter,
/// move four pixels along the animation's direction, and return to `Idle`
/// once the frame budget is spent. An idle hero merely stops animating.
pub open spec fn animate_step(h: Hero) -> Hero {
    let ticked = h.anime_frame + 1;
    match h.anime {
        Animation::Idle => Hero { anime_frame: ticked as isize, animating: false, ..h },
        _ => Hero {
            anime_frame: ticked as isize,
            position: Vec2 {
                x: (h.position.x + anim_dx(h.anime)) as isize,
                y: (h.position.y + anim_dy(h.anime)) as isize,
            },
            anime: if anim_frames(h.anime) <= ticked {
                Animation::Idle
            } else {
                h.anime
            },
            animating: h.animating,
            ..h
        },
    }
}

/// One whole update tick: handle movement input unless an animation is
/// already running, then advance the animation one frame.
pub open spec fn hero_tick(h: Hero, map: RandomMap, im: InputManager) -> Hero {
    let stepped = if !h.animating {
        input_step(h, map, im)
    } else {
        h
    };
    animate_step(stepped)
}

/// A hero whose state the update tick cannot overflow: the position stays
/// four pixels clear of the `isize` range and the frame counter below its
/// maximum. Far looser than any position a generated map can produce.
pub open spec fn hero_in_range(h: Hero) -> bool {
    &&& isize::MIN + 4 <= h.position.x <= isize::MAX - 4
    &&& isize::MIN + 4 <= h.position.y <= isize::MAX - 4
    &&& h.anime_frame < isize::MAX
}

impl Hero {
    /// A hero at the origin, idle.
    pub fn new() -> (r: Self)
        ensures
            r == (Hero {
                position: Vec2 { x: 0isize, y: 0isize },
                anime: Animation::Idle,
                animating: false,
                anime_frame: 0isize,
            }),
    {
        Hero { position: Vec2::new(0, 0), anime: Animation::Idle, animating: false, anime_frame: 0 }
    }

    /// Move by `direction` in pixels.
    fn move_by(&mut self, direction: Vec2<isize>)
        requires
            isize::MIN <= old(self).position.x + direction.x <= isize::MAX,
            isize::MIN <= old(self).position.y + direction.y <= isize::MAX,
        ensures
            final(self).position.x == old(self).position.x + direction.x,
            final(self).position.y == old(self).position.y + direction.y,
            final(self).anime == old(self).anime,
            final(self).animating == old(self).animating,
            final(self).anime_frame == old(self).anime_frame,
    {
        self.position = self.position.add(direction);
    }

    /// Place the hero at `coord`, in pixels.
    pub fn teleport(&mut self, coord: &Vec2<isize>)
        ensures
            final(self).position == *coord,
            final(self).anime == old(self).anime,
            final(self).animating == old(self).animating,
            final(self).anime_frame == old(self).anime_frame,
    {
        self.position = *coord;
    }

    /// Handle movement input: start a walk animation toward the pressed
    /// direction when the map allows the step, sliding along walls when
    /// only one axis is blocked.
    #[verifier::rlimit(60)]
    pub fn input_proc(&mut self, map: &RandomMap, im: &InputManager)
        requires
            map.shape_wf(),
            0 <= old(self).position.x,
            0 <= old(self).position.y,
        ensures
            *final(self) == input_step(*old(self), *map, *im),
    {
        let mut in_dir = Vec2::new(0, 0);
        if im.get_key(InputKey::UP) {
            in_dir = in_dir.add(Vec2::new(0, -1));
        }
        if im.get_key(InputKey::DOWN) {
            in_dir = in_dir.add(Vec2::new(0, 1));
        }
        if im.get_key(InputKey::LEFT) {
            in_dir = in_dir.add(Vec2::new(-1, 0));
        }
        if im.get_key(InputKey::RIGHT) {
            in_dir = in_dir.add(Vec2::new(1, 0));
        }

        if in_dir.x != 0 || in_dir.y != 0 {
            let grid_pos = self.position.div(32);
            let mut move_dir = Vec2::new(0, 0);

            let dir_x = Vec2::new(in_dir.x, 0);
            match map.get_component(grid_pos.add(dir_x)) {
                Some(comp) => match comp {
                    MapComponent::Wall => {},
                    _ => move_dir = move_dir.add(dir_x),
                },
                None => {},
            }
            let dir_y = Vec2::new(0, in_dir.y);
            match map.get_component(grid_pos.add(dir_y)) {
                Some(comp) => match comp {
                    MapComponent::Wall => {},
                    _ => move_dir = move_dir.add(dir_y),
                },
                None => {},
            }

            if move_dir.x != 0 || move_dir.y != 0 {
                match map.get_component(grid_pos.add(move_dir)) {
                    Some(comp) => match comp {
                        MapComponent::Wall => {},
                        _ => {
                            if 0 < move_dir.x {
                                if 0 < move_dir.y {
                                    self.anime_start(Animation::MoveDownRight { frame: 8 });
                                } else if move_dir.y < 0 {
                                    self.anime_start(Animation::MoveUpRight { frame: 8 });
                                } else {
                                    self.anime_start(Animation::MoveRight { frame: 8 });
                                }
                            } else if move_dir.x < 0 {
                                if 0 < move_dir.y {
                                    self.anime_start(Animation::MoveDownLeft { frame: 8 });
                                } else if move_dir.y < 0 {
                                    self.anime_start(Animation::MoveUpLeft { frame: 8 });
                                } else {
                                    self.anime_start(Animation::MoveLeft { frame: 8 });
                                }
                            } else {
                                if 0 < move_dir.y {
                                    self.anime_start(Animation::MoveDown { frame: 8 });
                                } else if move_dir.y < 0 {
                                    self.anime_start(Animation::MoveUp { frame: 8 });
                                }
                            }
                        },
                    },
                    None => {},
                }
            }
        }
    }

    /// Begin an animation from its first frame.
    fn anime_start(&mut self, anime: Animation)
        ensures
            *final(self) == (Hero {
                anime,
                animating: true,
                anime_frame: 0isize,
                ..*old(self)
            }),
    {
        self.anime = anime;
        self.animating = true;
        self.anime_frame = 0;
    }

    /// Advance the running animation one frame: move four pixels along its
    /// direction and return to idle once its frame budget is spent.
    pub fn animate(&mut self)
        requires
            hero_in_range(*old(self)),
        ensures
            *final(self) == animate_step(*old(self)),
    {
        self.anime_frame = self.anime_frame + 1;
        match self.anime {
            Animation::MoveUp { frame } => {
                self.move_by(Vec2::new(0, -4));
                if frame <= self.anime_frame {
                    self.anime = Animation::Idle;
                }
            },
            Animation::MoveDown { frame } => {
                self.move_by(Vec2::new(0, 4));
                if frame <= self.anime_frame {
                    self.anime = Animation::Idle;
                }
            },
            Animation::MoveLeft { frame } => {
                self.move_by(Vec2::new(-4, 0));
                if frame <= self.anime_frame {
                    self.anime = Animation::Idle;
                }
            },
            Animation::MoveRight { frame } => {
                self.move_by(Vec2::new(4, 0));
                if frame <= self.anime_frame {
                    self.anime = Animation::Idle;
                }
            },
            Animation::MoveUpLeft { frame } => {
                self.move_by(Vec2::new(-4, -4));
                if frame <= self.anime_frame {
                    self.anime = Animation::Idle;
                }
            },
            Animation::MoveUpRight { frame } => {
                self.move_by(Vec2::new(4, -4));
                if frame <= self.anime_frame {
                    self.anime = Animation::Idle;
                }
            },
            Animation::MoveDownLeft { frame } => {
                self.move_by(Vec2::new(-4, 4));
                if frame <= self.anime_frame {
                    self.anime = Animation::Idle;
                }
            },
            Animation::MoveDownRight { frame } => {
                self.move_by(Vec2::new(4, 4));
                if frame <= self.anime_frame {
                    self.anime = Animation::Idle;
                }
            },
            _ => {
                self.animating = false;
            },
        }
    }

    /// One update tick: take movement input unless an animation is already
    /// running, then advance the animation one frame.
    pub fn update(&mut self, map: &RandomMap, im: &InputManager)
        requires
            map.shape_wf(),
            0 <= old(self).position.x,
            0 <= old(self).position.y,
            hero_in_range(*old(self)),
        ensures
            *final(self) == hero_tick(*old(self), *map, *im),
    {
        if !self.animating {
            self.input_proc(map, im);
        }
        self.animate();
    }
}

} // verus!
