//! The random dungeon map generator.
//!
//! Generation runs in phases over a rectangular cell grid: carve a maze by
//! growing walls from lattice posts, stamp non-overlapping rectangular rooms
//! on top, wall off every dead-end corridor spur, and finally derive a sprite
//! index for each wall cell from its eight-cell neighborhood.

use vstd::prelude::*;

use crate::map_component::MapComponent;
use crate::map_component::is_open;
use crate::random_source::RandomSource;
use crate::rect::Rect;
use crate::vector2::Vec2;

verus! {

/// Side length of one tile in render pixels.
pub const TILE_PIXELS: usize = 32;

/// Largest accepted grid side. Keeps every pixel coordinate
/// (`cell * TILE_PIXELS`) and every cast to `isize` in range, even on
/// 32-bit platforms.
pub const MAX_DIM: usize = 0x8000;

/// Sprite index used for every cell that is not a wall, and for wall
/// neighborhoods no pattern matches.
pub const PLAIN_TILE: usize = 23;

/// Size of a map in cells.
#[derive(Clone, Copy, PartialEq, Eq, Structural, Debug)]
pub struct MapSize {
    pub width: usize,
    pub height: usize,
}

/// A placed room, recorded in ghost state: the top-left cell and the extent.
pub ghost struct RoomRect {
    pub x: int,
    pub y: int,
    pub w: int,
    pub h: int,
}

/// The grid has `h` rows of `w` cells each.
pub open spec fn dims_ok(m: Seq<Vec<MapComponent>>, w: int, h: int) -> bool {
    &&& m.len() == h
    &&& forall|j: int| 0 <= j < h ==> (#[trigger] m[j])@.len() == w
}

/// The entry stored at column `x` of row `y` of a grid of rows.
pub open spec fn cell<T>(m: Seq<Vec<T>>, x: int, y: int) -> T {
    m[y]@[x]
}

/// Whether `(x, y)` is a coordinate of a `w` by `h` grid.
pub open spec fn in_grid(w: int, h: int, x: int, y: int) -> bool {
    0 <= x < w && 0 <= y < h
}

/// Whether `(x, y)` lies on the one-cell outer rim of the grid.
pub open spec fn on_border(w: int, h: int, x: int, y: int) -> bool {
    x == 0 || x == w - 1 || y == 0 || y == h - 1
}

/// Whether `(x, y)` is a grid coordinate off the border.
pub open spec fn interior(w: int, h: int, x: int, y: int) -> bool {
    1 <= x < w - 1 && 1 <= y < h - 1
}

/// Every border cell is a wall.
pub open spec fn border_walled(m: Seq<Vec<MapComponent>>, w: int, h: int) -> bool {
    forall|x: int, y: int|
        in_grid(w, h, x, y) && on_border(w, h, x, y) ==> #[trigger] cell(m, x, y)
            == MapComponent::Wall
}

/// No cell of the grid is a room floor.
pub open spec fn room_free(m: Seq<Vec<MapComponent>>, w: int, h: int) -> bool {
    forall|x: int, y: int|
        in_grid(w, h, x, y) ==> #[trigger] cell(m, x, y) != MapComponent::Room
}

/// 1 if `b` holds, else 0; used to sum neighbor counts.
pub open spec fn count_1(b: bool) -> int {
    if b {
        1
    } else {
        0
    }
}

/// How many of the four orthogonal neighbors of `(x, y)` are open
/// (corridor or room). Meaningful for interior cells.
pub open spec fn open_count(m: Seq<Vec<MapComponent>>, x: int, y: int) -> int {
    count_1(is_open(cell(m, x, y - 1))) + count_1(is_open(cell(m, x, y + 1))) + count_1(
        is_open(cell(m, x - 1, y)),
    ) + count_1(is_open(cell(m, x + 1, y)))
}

/// The map keeps at least one cell one can stand on.
pub open spec fn has_open_cell(m: Seq<Vec<MapComponent>>, w: int, h: int) -> bool {
    exists|x: int, y: int| in_grid(w, h, x, y) && is_open(#[trigger] cell(m, x, y))
}

/// The map holds at least one room floor cell.
pub open spec fn has_room_cell(m: Seq<Vec<MapComponent>>, w: int, h: int) -> bool {
    exists|x: int, y: int| in_grid(w, h, x, y) && #[trigger] cell(m, x, y) == MapComponent::Room
}

/// No open interior cell has exactly one open orthogonal neighbor: the map
/// holds no dead-end spur.
pub open spec fn no_dead_end(m: Seq<Vec<MapComponent>>, w: int, h: int) -> bool {
    forall|x: int, y: int|
        interior(w, h, x, y) && is_open(#[trigger] cell(m, x, y)) ==> open_count(m, x, y) != 1
}

/// Whether `(x, y)` is a cell of room rectangle `r`.
pub open spec fn room_contains(r: RoomRect, x: int, y: int) -> bool {
    r.x <= x < r.x + r.w && r.y <= y < r.y + r.h
}

/// A well-formed placed room: odd extents drawn from `[9, 15]`, odd-aligned,
/// and strictly inside the border of a `w` by `h` grid.
pub open spec fn room_wf(r: RoomRect, w: int, h: int) -> bool {
    &&& r.x % 2 == 1 && r.y % 2 == 1
    &&& r.w % 2 == 1 && r.h % 2 == 1
    &&& 9 <= r.w <= 15 && 9 <= r.h <= 15
    &&& 1 <= r.x && r.x + r.w <= w - 1
    &&& 1 <= r.y && r.y + r.h <= h - 1
}

/// Two room rectangles that share no cell: they are separated along at
/// least one axis.
pub open spec fn rooms_separate(a: RoomRect, b: RoomRect) -> bool {
    a.x + a.w <= b.x || b.x + b.w <= a.x || a.y + a.h <= b.y || b.y + b.h <= a.y
}

/// All placed rooms are pairwise separate.
pub open spec fn rooms_disjoint(rs: Seq<RoomRect>) -> bool {
    forall|i: int, j: int|
        0 <= i < rs.len() && 0 <= j < rs.len() && i != j ==> rooms_separate(
            #[trigger] rs[i],
            #[trigger] rs[j],
        )
}

/// Every room in the list is well formed for a `w` by `h` grid.
pub open spec fn rooms_wf(rs: Seq<RoomRect>, w: int, h: int) -> bool {
    forall|k: int| 0 <= k < rs.len() ==> room_wf(#[trigger] rs[k], w, h)
}

/// A cell is a room floor exactly when some placed room covers it.
pub open spec fn rooms_cover(m: Seq<Vec<MapComponent>>, w: int, h: int, rs: Seq<RoomRect>) -> bool {
    forall|x: int, y: int|
        in_grid(w, h, x, y) ==> ((#[trigger] cell(m, x, y)) == MapComponent::Room <==> exists|k: int|
            0 <= k < rs.len() && #[trigger] room_contains(rs[k], x, y))
}

/// Separated rooms share no cell: the cell sets of any two distinct placed
/// rooms are disjoint.
pub proof fn lemma_separate_rooms_share_no_cell(a: RoomRect, b: RoomRect, x: int, y: int)
    requires
        rooms_separate(a, b),
    ensures
        !(room_contains(a, x, y) && room_contains(b, x, y)),
{
}

/// A post: an even-aligned interior lattice coordinate eligible as a seed
/// for wall growth, spaced two cells from the border and from its peers.
pub open spec fn post_ok(w: int, h: int, p: Vec2<isize>) -> bool {
    p.x % 2 == 0 && p.y % 2 == 0 && 2 <= p.x && p.x <= w - 3 && 2 <= p.y && p.y <= h - 3
}

/// Whether `(x, y)` is a post coordinate of the `w` by `h` grid.
pub open spec fn lattice_post(w: int, h: int, x: int, y: int) -> bool {
    2 <= x <= w - 3 && 2 <= y <= h - 3 && x % 2 == 0 && y % 2 == 0
}

/// Build a grid of `h` rows of `w` cells, every cell holding `v`.
pub fn make_grid<T: Copy>(v: T, w: usize, h: usize) -> (g: Vec<Vec<T>>)
    ensures
        g@.len() == h,
        forall|j: int| 0 <= j < h ==> (#[trigger] g@[j])@.len() == w,
        forall|x: int, y: int| in_grid(w as int, h as int, x, y) ==> #[trigger] cell(g@, x, y) == v,
{
    let mut g: Vec<Vec<T>> = Vec::new();
    let mut j: usize = 0;
    while j < h
        invariant
            j <= h,
            g@.len() == j,
            forall|jj: int| 0 <= jj < j ==> (#[trigger] g@[jj])@.len() == w,
            forall|x: int, y: int|
                0 <= x < w && 0 <= y < j ==> #[trigger] cell(g@, x, y) == v,
        decreases h - j,
    {
        let mut row: Vec<T> = Vec::new();
        let mut i: usize = 0;
        while i < w
            invariant
                i <= w,
                row@.len() == i,
                forall|x: int| 0 <= x < i ==> #[trigger] row@[x] == v,
            decreases w - i,
        {
            row.push(v);
            i = i + 1;
        }
        let ghost g0 = g@;
        g.push(row);
        proof {
            assert forall|x: int, y: int| 0 <= x < w && 0 <= y < j + 1 implies #[trigger] cell(
                g@,
                x,
                y,
            ) == v by {
                if y == j {
                    assert(g@[y] == row);
                    assert(row@[x] == v);
                } else {
                    assert(g@[y] == g0[y]);
                    assert(cell(g0, x, y) == v);
                }
            };
        }
        j = j + 1;
    }
    g
}

/// Write entry `c` at column `x` of row `y`, leaving every other cell
/// and all row lengths unchanged.
pub fn set_cell<T>(m: &mut Vec<Vec<T>>, x: usize, y: usize, c: T)
    requires
        (y as int) < old(m)@.len(),
        (x as int) < old(m)@[y as int]@.len(),
    ensures
        final(m)@.len() == old(m)@.len(),
        forall|j: int|
            0 <= j < old(m)@.len() ==> (#[trigger] final(m)@[j])@.len() == old(m)@[j]@.len(),
        forall|xx: int, yy: int|
            0 <= yy < old(m)@.len() && 0 <= xx < old(m)@[yy]@.len() && !(xx == x as int && yy
                == y as int) ==> #[trigger] cell(final(m)@, xx, yy) == cell(old(m)@, xx, yy),
        cell(final(m)@, x as int, y as int) == c,
{
    m[y][x] = c;
}

/// The generated map: the cell grid, a parallel grid of sprite indices for
/// rendering, and the size both share.
pub struct RandomMap {
    pub map: Vec<Vec<MapComponent>>,
    pub draw_map: Vec<Vec<usize>>,
    pub size: MapSize,
    pub rooms: Ghost<Seq<RoomRect>>,
}

/// The requested size corrected to the closest odd value `2 * n + 3`
/// with `n >= 1`; the smallest accepted size is 5.
pub open spec fn corrected(n: int) -> int {
    2 * (if n / 2 > 0 {
        n / 2
    } else {
        1
    }) + 3
}

impl RandomMap {
    /// The grid width and height the struct promises to hold.
    pub open spec fn spec_width(self) -> int {
        self.size.width as int
    }

    /// The grid height in rows.
    pub open spec fn spec_height(self) -> int {
        self.size.height as int
    }

    /// Basic shape of a generated map: odd dimensions of at least 5 on each
    /// side, within `MAX_DIM`, with matching row lengths in both grids.
    pub open spec fn shape_wf(self) -> bool {
        &&& 5 <= self.spec_width() && self.spec_width() % 2 == 1
        &&& 5 <= self.spec_height() && self.spec_height() % 2 == 1
        &&& self.size.width <= MAX_DIM && self.size.height <= MAX_DIM
        &&& dims_ok(self.map@, self.spec_width(), self.spec_height())
        &&& self.draw_map@.len() == self.spec_height()
        &&& forall|j: int|
            0 <= j < self.spec_height() ==> (#[trigger] self.draw_map@[j])@.len()
                == self.spec_width()
    }

    /// Everything `RandomMap::new` establishes about the cell grid: shape,
    /// walled border, disjoint well-formed rooms covering exactly the room
    /// cells, and no dead-end corridor spur.
    pub open spec fn wf(self) -> bool {
        &&& self.shape_wf()
        &&& border_walled(self.map@, self.spec_width(), self.spec_height())
        &&& rooms_wf(self.rooms@, self.spec_width(), self.spec_height())
        &&& rooms_disjoint(self.rooms@)
        &&& rooms_cover(self.map@, self.spec_width(), self.spec_height(), self.rooms@)
        &&& no_dead_end(self.map@, self.spec_width(), self.spec_height())
    }

    /// Correct a requested size to the closest valid odd size of at least 5
    /// on each axis.
    pub fn correct_size(width: usize, height: usize) -> (r: (usize, usize))
        requires
            width <= MAX_DIM - 3,
            height <= MAX_DIM - 3,
        ensures
            r.0 == corrected(width as int),
            r.1 == corrected(height as int),
            5 <= r.0 <= MAX_DIM && r.0 % 2 == 1,
            5 <= r.1 <= MAX_DIM && r.1 % 2 == 1,
    {
        let mut w = width / 2;
        w = if w > 0 {
            w
        } else {
            1
        };
        w = w * 2 + 3;

        let mut h = height / 2;
        h = if h > 0 {
            h
        } else {
            1
        };
        h = h * 2 + 3;

        (w, h)
    }

    /// Generate a map: correct the requested size, carve the maze, stamp
    /// the rooms, wall off every dead-end spur, and resolve the render
    /// grid. The returned map is fully well formed: walled border, at most
    /// nine disjoint well-formed rooms covering exactly the room cells —
    /// and at least one room whenever both requested sides are 16 or more
    /// — no dead ends, at least one walkable cell, and a render grid
    /// matching the wall layout.
    pub fn new<R: RandomSource>(width: usize, height: usize, rng: &mut R) -> (rm: Self)
        requires
            width <= MAX_DIM - 3,
            height <= MAX_DIM - 3,
        ensures
            rm.size.width == corrected(width as int),
            rm.size.height == corrected(height as int),
            rm.wf(),
            has_open_cell(rm.map@, rm.spec_width(), rm.spec_height()),
            rm.rooms@.len() <= 9,
            width >= 16 && height >= 16 ==> rm.rooms@.len() >= 1 && has_room_cell(
                rm.map@,
                rm.spec_width(),
                rm.spec_height(),
            ),
            forall|x: int, y: int|
                lattice_post(rm.spec_width(), rm.spec_height(), x, y) ==> #[trigger] cell(
                    rm.map@,
                    x,
                    y,
                ) != MapComponent::Corridor,
            forall|x: int, y: int|
                in_grid(rm.spec_width(), rm.spec_height(), x, y) ==> #[trigger] cell(
                    rm.draw_map@,
                    x,
                    y,
                ) as int == crate::tiles::draw_cell_spec(
                    rm.map@,
                    rm.spec_width(),
                    rm.spec_height(),
                    x,
                    y,
                ),
    {
        let (w, h) = Self::correct_size(width, height);

        let mut rm = RandomMap {
            map: make_grid(MapComponent::Corridor, w, h),
            draw_map: make_grid(PLAIN_TILE, w, h),
            size: MapSize { width: w, height: h },
            rooms: Ghost(Seq::empty()),
        };

        proof {
            if width >= 16 && height >= 16 {
                assert(w >= 18 && h >= 18);
            }
        }
        rm.build_maze(rng);
        proof {
            // The carver never walls a cell with two odd coordinates, so
            // (1, 1) is still the corridor it started as.
            assert(cell(rm.map@, 1, 1) == MapComponent::Corridor);
        }
        let ghost m_carved = rm.map@;
        rm.build_room(rng);
        proof {
            assert(is_open(cell(rm.map@, 1, 1)));
            assert(has_open_cell(rm.map@, rm.spec_width(), rm.spec_height()));
            // The carver walled every post; rooms may overwrite some with
            // room floor, but none comes back as corridor.
            assert forall|x: int, y: int|
                lattice_post(rm.spec_width(), rm.spec_height(), x, y) implies #[trigger] cell(
                rm.map@,
                x,
                y,
            ) != MapComponent::Corridor by {
                assert(cell(m_carved, x, y) == MapComponent::Wall);
                assert(cell(rm.map@, x, y) == cell(m_carved, x, y) || cell(rm.map@, x, y)
                    == MapComponent::Room);
            };
            if rm.rooms@.len() >= 1 {
                // The first room's corner cell is room floor.
                let r0 = rm.rooms@[0];
                assert(room_wf(r0, rm.spec_width(), rm.spec_height()));
                assert(room_contains(r0, r0.x, r0.y));
                assert(cell(rm.map@, r0.x, r0.y) == MapComponent::Room);
                assert(has_room_cell(rm.map@, rm.spec_width(), rm.spec_height()));
            }
        }
        let ghost m_roomed = rm.map@;
        rm.remove_deadend();
        proof {
            if rm.rooms@.len() >= 1 {
                let r0 = rm.rooms@[0];
                assert(room_contains(r0, r0.x, r0.y));
                assert(cell(rm.map@, r0.x, r0.y) == MapComponent::Room);
                assert(has_room_cell(rm.map@, rm.spec_width(), rm.spec_height()));
            }
            // Pruning only turns corridor into wall, so no post becomes
            // corridor either.
            assert forall|x: int, y: int|
                lattice_post(rm.spec_width(), rm.spec_height(), x, y) implies #[trigger] cell(
                rm.map@,
                x,
                y,
            ) != MapComponent::Corridor by {
                assert(cell(m_roomed, x, y) != MapComponent::Corridor);
                assert(cell(rm.map@, x, y) == cell(m_roomed, x, y) || (cell(m_roomed, x, y)
                    == MapComponent::Corridor && cell(rm.map@, x, y) == MapComponent::Wall));
            };
        }
        rm.build_draw_map();

        rm
    }

    /// Bounds-checked cell query: the component at `coord`, or `None` when
    /// `coord` lies outside the grid.
    pub fn get_component(&self, coord: Vec2<isize>) -> (r: Option<MapComponent>)
        requires
            self.shape_wf(),
        ensures
            r == if in_grid(self.spec_width(), self.spec_height(), coord.x as int, coord.y as int) {
                Some(cell(self.map@, coord.x as int, coord.y as int))
            } else {
                None::<MapComponent>
            },
    {
        let w = self.size.width;
        let h = self.size.height;
        let mut comp = None;
        if Rect::new(0, 0, w - 1, h - 1).contains(coord) {
            comp = Some(self.map[coord.y as usize][coord.x as usize]);
        }
        comp
    }

    /// Wall every cell of the outer rim, leaving all other cells unchanged.
    pub fn build_outerwall(&mut self)
        requires
            old(self).shape_wf(),
        ensures
            final(self).shape_wf(),
            final(self).size == old(self).size,
            final(self).draw_map == old(self).draw_map,
            final(self).rooms == old(self).rooms,
            border_walled(final(self).map@, final(self).spec_width(), final(self).spec_height()),
            forall|x: int, y: int|
                in_grid(old(self).spec_width(), old(self).spec_height(), x, y) && !on_border(
                    old(self).spec_width(),
                    old(self).spec_height(),
                    x,
                    y,
                ) ==> #[trigger] cell(final(self).map@, x, y) == cell(old(self).map@, x, y),
    {
        let w = self.size.width;
        let h = self.size.height;
        let ghost wi = w as int;
        let ghost hi = h as int;
        let ghost m0 = self.map@;

        let mut i: usize = 0;
        while i < w
            invariant
                old(self).shape_wf(),
                w == old(self).size.width,
                h == old(self).size.height,
                wi == w as int,
                hi == h as int,
                m0 == old(self).map@,
                i <= w,
                self.size == old(self).size,
                self.draw_map == old(self).draw_map,
                self.rooms == old(self).rooms,
                dims_ok(self.map@, wi, hi),
                forall|x: int, y: int|
                    in_grid(wi, hi, x, y) && !on_border(wi, hi, x, y) ==> #[trigger] cell(
                        self.map@,
                        x,
                        y,
                    ) == cell(m0, x, y),
                forall|x: int, y: int|
                    in_grid(wi, hi, x, y) && on_border(wi, hi, x, y) && x < i ==> #[trigger] cell(
                        self.map@,
                        x,
                        y,
                    ) == MapComponent::Wall,
            decreases w - i,
        {
            let mut j: usize = 0;
            while j < h
                invariant
                    old(self).shape_wf(),
                    w == old(self).size.width,
                    h == old(self).size.height,
                    wi == w as int,
                    hi == h as int,
                    m0 == old(self).map@,
                    i < w,
                    j <= h,
                    self.size == old(self).size,
                    self.draw_map == old(self).draw_map,
                    self.rooms == old(self).rooms,
                    dims_ok(self.map@, wi, hi),
                    forall|x: int, y: int|
                        in_grid(wi, hi, x, y) && !on_border(wi, hi, x, y) ==> #[trigger] cell(
                            self.map@,
                            x,
                            y,
                        ) == cell(m0, x, y),
                    forall|x: int, y: int|
                        in_grid(wi, hi, x, y) && on_border(wi, hi, x, y) && (x < i || (x == i && y
                            < j)) ==> #[trigger] cell(self.map@, x, y) == MapComponent::Wall,
                decreases h - j,
            {
                if i == 0 || i == w - 1 || j == 0 || j == h - 1 {
                    set_cell(&mut self.map, i, j, MapComponent::Wall);
                }
                j = j + 1;
            }
            i = i + 1;
        }
    }

    /// A random room-floor coordinate scaled to render pixels, or `None`
    /// when the map has no room at all (every placement attempt for every
    /// room was abandoned). Random positions are drawn and rejected a
    /// bounded number of times; if none lands on room floor the grid is
    /// scanned for the first room cell, so the call always terminates.
    pub fn respawnable_coord<R: RandomSource>(&self, rng: &mut R) -> (r: Option<Vec2<isize>>)
        requires
            self.shape_wf(),
        ensures
            match r {
                Some(v) => exists|cx: int, cy: int|
                    in_grid(self.spec_width(), self.spec_height(), cx, cy) && #[trigger] cell(
                        self.map@,
                        cx,
                        cy,
                    ) == MapComponent::Room && v.x == TILE_PIXELS * cx && v.y == TILE_PIXELS * cy,
                None => forall|cx: int, cy: int|
                    in_grid(self.spec_width(), self.spec_height(), cx, cy) ==> #[trigger] cell(
                        self.map@,
                        cx,
                        cy,
                    ) != MapComponent::Room,
            },
    {
        let w = self.size.width;
        let h = self.size.height;
        let ghost wi = self.spec_width();
        let ghost hi = self.spec_height();

        let mut tries: usize = 0;
        while tries < 100
            invariant
                self.shape_wf(),
                wi == self.spec_width(),
                hi == self.spec_height(),
                w == self.size.width,
                h == self.size.height,
            decreases 100 - tries,
        {
            let rand_pos = Vec2::new(
                rng.next_in_range(0, w as isize),
                rng.next_in_range(0, h as isize),
            );
            match self.get_component(rand_pos) {
                Some(MapComponent::Room) => {
                    return Some(rand_pos.mul(32));
                },
                _ => {},
            }
            tries = tries + 1;
        }

        // The random draws were unlucky: fall back to the first room cell
        // in scan order.
        let mut y: usize = 0;
        while y < h
            invariant
                self.shape_wf(),
                wi == self.spec_width(),
                hi == self.spec_height(),
                w == self.size.width,
                h == self.size.height,
                y <= h,
                forall|cx: int, cy: int|
                    in_grid(wi, hi, cx, cy) && cy < y ==> #[trigger] cell(self.map@, cx, cy)
                        != MapComponent::Room,
            decreases h - y,
        {
            let mut x: usize = 0;
            while x < w
                invariant
                    self.shape_wf(),
                    wi == self.spec_width(),
                    hi == self.spec_height(),
                    w == self.size.width,
                    h == self.size.height,
                    y < h,
                    x <= w,
                    forall|cx: int, cy: int|
                        in_grid(wi, hi, cx, cy) && cy < y ==> #[trigger] cell(self.map@, cx, cy)
                            != MapComponent::Room,
                    forall|cx: int|
                        0 <= cx < x ==> #[trigger] cell(self.map@, cx, y as int)
                            != MapComponent::Room,
                decreases w - x,
            {
                let pos = Vec2::new(x as isize, y as isize);
                match self.get_component(pos) {
                    Some(MapComponent::Room) => {
                        return Some(pos.mul(32));
                    },
                    _ => {},
                }
                x = x + 1;
            }
            y = y + 1;
        }
        None
    }

    /// Bounds-checked render grid query: the sprite index at `coord`, or
    /// `None` when `coord` lies outside the grid.
    pub fn render_index_at(&self, coord: Vec2<isize>) -> (r: Option<usize>)
        requires
            self.shape_wf(),
        ensures
            r == if in_grid(self.spec_width(), self.spec_height(), coord.x as int, coord.y as int) {
                Some(cell(self.draw_map@, coord.x as int, coord.y as int))
            } else {
                None::<usize>
            },
    {
        let w = self.size.width;
        let h = self.size.height;
        let mut r = None;
        if Rect::new(0, 0, w - 1, h - 1).contains(coord) {
            r = Some(self.draw_map[coord.y as usize][coord.x as usize]);
        }
        r
    }

    /// List the lattice posts of the grid, in column-major order: the
    /// coordinate `(2 * (i + 1), 2 * (j + 1))` for every interior lattice
    /// index pair.
    pub fn make_post(&self) -> (posts: Vec<Vec2<isize>>)
        requires
            self.shape_wf(),
        ensures
            posts@.len() == ((self.spec_width() - 3) / 2) * ((self.spec_height() - 3) / 2),
            forall|k: int|
                0 <= k < posts@.len() ==> post_ok(
                    self.spec_width(),
                    self.spec_height(),
                    #[trigger] posts@[k],
                ),
            forall|i: int, j: int|
                0 <= i < (self.spec_width() - 3) / 2 && 0 <= j < (self.spec_height() - 3) / 2
                    ==> #[trigger] posts@[i * ((self.spec_height() - 3) / 2) + j] == (Vec2 {
                    x: (2 * (i + 1)) as isize,
                    y: (2 * (j + 1)) as isize,
                }),
    {
        let w = self.size.width;
        let h = self.size.height;
        let nx = (w - 3) / 2;
        let ny = (h - 3) / 2;
        let ghost wi = w as int;
        let ghost hi = h as int;

        let mut posts: Vec<Vec2<isize>> = Vec::new();
        let mut i: usize = 0;
        while i < nx
            invariant
                wi == w as int,
                hi == h as int,
                5 <= wi <= MAX_DIM && 5 <= hi <= MAX_DIM,
                nx == (wi - 3) / 2,
                ny == (hi - 3) / 2,
                i <= nx,
                posts@.len() == i * ny,
                forall|k: int| 0 <= k < posts@.len() ==> post_ok(wi, hi, #[trigger] posts@[k]),
                forall|a: int, b: int|
                    0 <= a < i && 0 <= b < ny ==> #[trigger] posts@[a * ny + b] == (Vec2 {
                        x: (2 * (a + 1)) as isize,
                        y: (2 * (b + 1)) as isize,
                    }),
            decreases nx - i,
        {
            let mut j: usize = 0;
            while j < ny
                invariant
                    wi == w as int,
                    hi == h as int,
                    5 <= wi <= MAX_DIM && 5 <= hi <= MAX_DIM,
                    nx == (wi - 3) / 2,
                    ny == (hi - 3) / 2,
                    i < nx,
                    j <= ny,
                    posts@.len() == i * ny + j,
                    forall|k: int| 0 <= k < posts@.len() ==> post_ok(wi, hi, #[trigger] posts@[k]),
                    forall|a: int, b: int|
                        0 <= a < i && 0 <= b < ny ==> #[trigger] posts@[a * ny + b] == (Vec2 {
                            x: (2 * (a + 1)) as isize,
                            y: (2 * (b + 1)) as isize,
                        }),
                    forall|b: int|
                        0 <= b < j ==> #[trigger] posts@[i * ny + b] == (Vec2 {
                            x: (2 * (i as int + 1)) as isize,
                            y: (2 * (b + 1)) as isize,
                        }),
                decreases ny - j,
            {
                proof {
                    assert(i * ny + ny <= nx * ny) by (nonlinear_arith)
                        requires
                            0 <= i < nx as int,
                            0 <= ny,
                    ;
                    assert(nx * ny <= MAX_DIM * MAX_DIM) by (nonlinear_arith)
                        requires
                            0 <= nx <= MAX_DIM,
                            0 <= ny <= MAX_DIM,
                    ;
                }
                posts.push(Vec2::new((i as isize + 1) * 2, (j as isize + 1) * 2));
                proof {
                    assert forall|a: int, b: int| 0 <= a < i && 0 <= b < ny implies #[trigger] posts@[a
                        * ny + b] == (Vec2 {
                        x: (2 * (a + 1)) as isize,
                        y: (2 * (b + 1)) as isize,
                    }) by {
                        assert(a * ny + b < i as int * ny) by (nonlinear_arith)
                            requires
                                0 <= a < i as int,
                                0 <= b < ny,
                        ;
                    };
                }
                j = j + 1;
            }
            proof {
                assert((i + 1) * ny == i * ny + ny) by (nonlinear_arith);
            }
            i = i + 1;
        }
        posts
    }
}

} // verus!
