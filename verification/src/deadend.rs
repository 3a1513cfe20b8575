//! The dead-end pruning phase.
//!
//! A dead end is an interior corridor cell with exactly one open orthogonal
//! neighbor. The pass first scores every interior corridor cell with its
//! open-neighbor count, then walls off each dead end and walks down the
//! spur it belonged to, keeping the counts consistent as walls are added,
//! until the spur's branch point is reached. Afterwards no open interior
//! cell has exactly one open neighbor, and a map already free of dead ends
//! comes back unchanged.

use vstd::prelude::*;

use crate::map_component::MapComponent;
use crate::map_component::is_open;
use crate::maze::grid_coord_set;
use crate::maze::lemma_grid_card;
use crate::random_map::RandomMap;
use crate::random_map::RoomRect;
use crate::random_map::border_walled;
use crate::random_map::cell;
use crate::random_map::count_1;
use crate::random_map::in_grid;
use crate::random_map::interior;
use crate::random_map::make_grid;
use crate::random_map::no_dead_end;
use crate::random_map::open_count;
use crate::random_map::room_contains;
use crate::random_map::has_open_cell;
use crate::random_map::room_wf;
use crate::random_map::rooms_cover;
use crate::random_map::rooms_wf;
use crate::random_map::set_cell;
use crate::vector2::Vec2;

verus! {

/// The count grid entry at column `x` of row `y`, as an integer.
pub open spec fn cnt(c: Seq<Vec<i32>>, x: int, y: int) -> int {
    cell(c, x, y) as int
}

/// How many orthogonal neighbors of `(x, y)` lie in the grid and are walls.
pub open spec fn wall_nb(m: Seq<Vec<MapComponent>>, w: int, h: int, x: int, y: int) -> int {
    count_1(in_grid(w, h, x, y - 1) && cell(m, x, y - 1) == MapComponent::Wall) + count_1(
        in_grid(w, h, x, y + 1) && cell(m, x, y + 1) == MapComponent::Wall,
    ) + count_1(in_grid(w, h, x - 1, y) && cell(m, x - 1, y) == MapComponent::Wall) + count_1(
        in_grid(w, h, x + 1, y) && cell(m, x + 1, y) == MapComponent::Wall,
    )
}

/// The count grid is consistent with the map: an interior corridor cell
/// scores exactly its open-neighbor count; every other cell scores at most
/// zero and no lower than one less than minus its walled neighbor count.
pub open spec fn counts_ok(m: Seq<Vec<MapComponent>>, c: Seq<Vec<i32>>, w: int, h: int) -> bool {
    forall|x: int, y: int|
        in_grid(w, h, x, y) ==> ((interior(w, h, x, y) && cell(m, x, y) == MapComponent::Corridor
            ==> #[trigger] cnt(c, x, y) == open_count(m, x, y)) && (!(interior(w, h, x, y) && cell(
            m,
            x,
            y,
        ) == MapComponent::Corridor) ==> -1 - wall_nb(m, w, h, x, y) <= cnt(c, x, y) <= 0))
}

/// Strict scan order: `(y1, x1)` is visited before `(y2, x2)` by a
/// row-major scan.
pub open spec fn scan_lt(y1: int, x1: int, y2: int, x2: int) -> bool {
    y1 < y2 || (y1 == y2 && x1 < x2)
}

/// Scan order, inclusive.
pub open spec fn scan_le(y1: int, x1: int, y2: int, x2: int) -> bool {
    scan_lt(y1, x1, y2, x2) || (y1 == y2 && x1 == x2)
}

/// No interior cell scanned strictly before `(y, x)` scores exactly 1.
pub open spec fn prefix_ok(c: Seq<Vec<i32>>, w: int, h: int, y: int, x: int) -> bool {
    forall|xx: int, yy: int|
        interior(w, h, xx, yy) && scan_lt(yy, xx, y, x) ==> #[trigger] cnt(c, xx, yy) != 1
}

/// `m2` differs from `m1` only by corridor cells having been walled off.
pub open spec fn corridor_walled_only(
    m1: Seq<Vec<MapComponent>>,
    m2: Seq<Vec<MapComponent>>,
    w: int,
    h: int,
) -> bool {
    forall|x: int, y: int|
        in_grid(w, h, x, y) ==> (#[trigger] cell(m2, x, y) == cell(m1, x, y) || (cell(m1, x, y)
            == MapComponent::Corridor && cell(m2, x, y) == MapComponent::Wall))
}

/// Two cells one orthogonal step apart.
pub open spec fn adjacent_cells(a: Vec2<isize>, b: Vec2<isize>) -> bool {
    ||| (a.x == b.x && (a.y - b.y == 1 || b.y - a.y == 1))
    ||| (a.y == b.y && (a.x - b.x == 1 || b.x - a.x == 1))
}

/// A walk over open ground: every entry is an open in-grid cell, and
/// consecutive entries are orthogonal neighbors.
pub open spec fn open_path(m: Seq<Vec<MapComponent>>, w: int, h: int, p: Seq<Vec2<isize>>) -> bool {
    &&& p.len() >= 1
    &&& forall|k: int|
        0 <= k < p.len() ==> in_grid(w, h, (#[trigger] p[k]).x as int, p[k].y as int) && is_open(
            cell(m, p[k].x as int, p[k].y as int),
        )
    &&& forall|k: int| 0 <= k < p.len() - 1 ==> adjacent_cells(#[trigger] p[k], p[k + 1])
}

/// Open cell `b` can be walked to from open cell `a`.
pub open spec fn reaches(
    m: Seq<Vec<MapComponent>>,
    w: int,
    h: int,
    a: Vec2<isize>,
    b: Vec2<isize>,
) -> bool {
    exists|p: Seq<Vec2<isize>>| open_path(m, w, h, p) && p[0] == a && p.last() == b
}

/// Every pair of cells still open in `m2` that could be walked between in
/// `m1` can still be walked between in `m2`: the step from `m1` to `m2`
/// disconnects no surviving open cells.
pub open spec fn keeps_reach(
    m1: Seq<Vec<MapComponent>>,
    m2: Seq<Vec<MapComponent>>,
    w: int,
    h: int,
) -> bool {
    forall|a: Vec2<isize>, b: Vec2<isize>|
        in_grid(w, h, a.x as int, a.y as int) && in_grid(w, h, b.x as int, b.y as int) && is_open(
            cell(m2, a.x as int, a.y as int),
        ) && is_open(cell(m2, b.x as int, b.y as int)) && #[trigger] reaches(m1, w, h, a, b)
            ==> reaches(m2, w, h, a, b)
}

/// All open cells of the map can be walked between: the open region is
/// one connected piece.
pub open spec fn all_open_connected(m: Seq<Vec<MapComponent>>, w: int, h: int) -> bool {
    forall|a: Vec2<isize>, b: Vec2<isize>|
        in_grid(w, h, a.x as int, a.y as int) && in_grid(w, h, b.x as int, b.y as int) && is_open(
            cell(m, a.x as int, a.y as int),
        ) && is_open(cell(m, b.x as int, b.y as int)) ==> #[trigger] reaches(m, w, h, a, b)
}

/// A cell with exactly one open neighbor has no second one.
proof fn lemma_unique_open_neighbor(
    m: Seq<Vec<MapComponent>>,
    w: int,
    h: int,
    c: Vec2<isize>,
    u: Vec2<isize>,
    v: Vec2<isize>,
)
    requires
        interior(w, h, c.x as int, c.y as int),
        open_count(m, c.x as int, c.y as int) == 1,
        adjacent_cells(u, c),
        adjacent_cells(v, c),
        is_open(cell(m, u.x as int, u.y as int)),
        is_open(cell(m, v.x as int, v.y as int)),
    ensures
        u == v,
{
    let cx = c.x as int;
    let cy = c.y as int;
    if u != v {
        assert(cell(m, u.x as int, u.y as int) == cell(m, cx, cy - 1) || cell(
            m,
            u.x as int,
            u.y as int,
        ) == cell(m, cx, cy + 1) || cell(m, u.x as int, u.y as int) == cell(m, cx - 1, cy) || cell(
            m,
            u.x as int,
            u.y as int,
        ) == cell(m, cx + 1, cy));
        assert(open_count(m, cx, cy) >= 2);
    }
}

/// Walling a corridor cell that has exactly one open neighbor cannot
/// break a walk between two other cells: any visit to the walled cell
/// enters and leaves through that single neighbor, so it can be cut out.
proof fn lemma_wall_leaf_keeps_path(
    m1: Seq<Vec<MapComponent>>,
    m2: Seq<Vec<MapComponent>>,
    w: int,
    h: int,
    c: Vec2<isize>,
    p: Seq<Vec2<isize>>,
)
    requires
        interior(w, h, c.x as int, c.y as int),
        cell(m1, c.x as int, c.y as int) == MapComponent::Corridor,
        open_count(m1, c.x as int, c.y as int) == 1,
        forall|x: int, y: int|
            in_grid(w, h, x, y) && !(x == c.x as int && y == c.y as int) ==> #[trigger] cell(
                m2,
                x,
                y,
            ) == cell(m1, x, y),
        open_path(m1, w, h, p),
        p[0] != c,
        p.last() != c,
    ensures
        exists|q: Seq<Vec2<isize>>| open_path(m2, w, h, q) && q[0] == p[0] && q.last() == p.last(),
    decreases p.len(),
{
    if forall|k: int| 0 <= k < p.len() ==> #[trigger] p[k] != c {
        assert(open_path(m2, w, h, p)) by {
            assert forall|k: int| 0 <= k < p.len() implies in_grid(
                w,
                h,
                (#[trigger] p[k]).x as int,
                p[k].y as int,
            ) && is_open(cell(m2, p[k].x as int, p[k].y as int)) by {
                assert(p[k] != c);
                assert(cell(m2, p[k].x as int, p[k].y as int) == cell(
                    m1,
                    p[k].x as int,
                    p[k].y as int,
                ));
            };
        };
        assert(open_path(m2, w, h, p) && p[0] == p[0] && p.last() == p.last());
    } else {
        let i = choose|i: int| 0 <= i < p.len() && #[trigger] p[i] == c;
        assert(0 < i < p.len() - 1);
        assert(adjacent_cells(p[i - 1], p[i]));
        assert(adjacent_cells(p[i], p[i + 1]));
        assert(adjacent_cells(p[i + 1], c));
        lemma_unique_open_neighbor(m1, w, h, c, p[i - 1], p[i + 1]);
        let q0 = p.subrange(0, i) + p.subrange(i + 2, p.len() as int);
        assert(q0.len() == p.len() - 2);
        assert(q0[0] == p[0]);
        assert forall|k: int| 0 <= k < q0.len() implies in_grid(
            w,
            h,
            (#[trigger] q0[k]).x as int,
            q0[k].y as int,
        ) && is_open(cell(m1, q0[k].x as int, q0[k].y as int)) by {
            if k < i {
                assert(q0[k] == p[k]);
            } else {
                assert(q0[k] == p[k + 2]);
            }
        };
        assert forall|k: int| 0 <= k < q0.len() - 1 implies adjacent_cells(
            #[trigger] q0[k],
            q0[k + 1],
        ) by {
            if k + 1 < i {
                assert(q0[k] == p[k] && q0[k + 1] == p[k + 1]);
            } else if k + 1 == i {
                assert(q0[k] == p[i - 1] && q0[k + 1] == p[i + 2]);
                assert(p[i - 1] == p[i + 1]);
                assert(adjacent_cells(p[i + 1], p[i + 2]));
            } else {
                assert(q0[k] == p[k + 2] && q0[k + 1] == p[k + 3]);
            }
        };
        assert(q0.last() == p.last()) by {
            if i + 2 == p.len() {
                assert(q0.last() == p[i - 1]);
                assert(p[i - 1] == p[i + 1]);
                assert(p[i + 1] == p.last());
            } else {
                assert(q0.last() == p[p.len() - 1]);
            }
        };
        assert(q0[0] != c);
        assert(q0.last() != c);
        assert(open_path(m1, w, h, q0));
        lemma_wall_leaf_keeps_path(m1, m2, w, h, c, q0);
    }
}

/// The interior corridor cells of the map, as a set of coordinates.
pub open spec fn corridor_coords(m: Seq<Vec<MapComponent>>, w: int, h: int) -> Set<Vec2<isize>> {
    Set::new(
        |p: Vec2<isize>| interior(w, h, p.x as int, p.y as int) && cell(m, p.x as int, p.y as int)
            == MapComponent::Corridor,
    )
}

/// The interior corridor cells form a finite set of at most `w * h` cells.
proof fn lemma_corridor_card(m: Seq<Vec<MapComponent>>, w: int, h: int)
    requires
        0 <= w <= isize::MAX,
        0 <= h <= isize::MAX,
    ensures
        corridor_coords(m, w, h).finite(),
        corridor_coords(m, w, h).len() <= w * h,
{
    lemma_grid_card(w, h);
    assert(corridor_coords(m, w, h).subset_of(grid_coord_set(w, h)));
    vstd::set_lib::lemma_len_subset(corridor_coords(m, w, h), grid_coord_set(w, h));
}

/// A room cell always lies in the interior and keeps at least two open
/// orthogonal neighbors: its room rectangle is several cells wide, so two
/// of its neighbors, one per axis, are room floor as well.
pub proof fn lemma_room_cell_open(
    m: Seq<Vec<MapComponent>>,
    w: int,
    h: int,
    rs: Seq<RoomRect>,
    x: int,
    y: int,
)
    requires
        rooms_cover(m, w, h, rs),
        rooms_wf(rs, w, h),
        in_grid(w, h, x, y),
        cell(m, x, y) == MapComponent::Room,
        5 <= w && 5 <= h,
    ensures
        interior(w, h, x, y),
        open_count(m, x, y) >= 2,
{
    let k = choose|k: int| 0 <= k < rs.len() && #[trigger] room_contains(rs[k], x, y);
    let r = rs[k];
    assert(room_wf(r, w, h));
    let hx = if x > r.x {
        x - 1
    } else {
        x + 1
    };
    assert(room_contains(r, hx, y));
    assert(in_grid(w, h, hx, y));
    assert(cell(m, hx, y) == MapComponent::Room);
    let vy = if y > r.y {
        y - 1
    } else {
        y + 1
    };
    assert(room_contains(r, x, vy));
    assert(in_grid(w, h, x, vy));
    assert(cell(m, x, vy) == MapComponent::Room);
}

/// Pruning never disconnects the surviving open cells: a map whose open
/// region was one connected piece keeps one connected open region after
/// its dead ends are walled off.
pub proof fn lemma_pruning_preserves_connectivity(
    m1: Seq<Vec<MapComponent>>,
    m2: Seq<Vec<MapComponent>>,
    w: int,
    h: int,
)
    requires
        corridor_walled_only(m1, m2, w, h),
        keeps_reach(m1, m2, w, h),
        all_open_connected(m1, w, h),
    ensures
        all_open_connected(m2, w, h),
{
    assert forall|a: Vec2<isize>, b: Vec2<isize>|
        in_grid(w, h, a.x as int, a.y as int) && in_grid(w, h, b.x as int, b.y as int) && is_open(
            cell(m2, a.x as int, a.y as int),
        ) && is_open(cell(m2, b.x as int, b.y as int)) implies #[trigger] reaches(
        m2,
        w,
        h,
        a,
        b,
    ) by {
        assert(is_open(cell(m1, a.x as int, a.y as int)));
        assert(is_open(cell(m1, b.x as int, b.y as int)));
        assert(reaches(m1, w, h, a, b));
    };
}

impl RandomMap {
    /// Wall off every dead-end corridor spur: score the open neighbors of
    /// every interior corridor cell, then repeatedly wall the cells whose
    /// score is exactly 1, following each spur to its branch point while
    /// the scores are kept consistent.
    ///
    /// Afterwards no open interior cell has exactly one open neighbor, a
    /// map that already had no dead end comes back bit-identical, and
    /// because only leaves are ever walled, cells that could be walked
    /// between before can still be walked between if both survive.
    #[verifier::rlimit(100)]
    pub fn remove_deadend(&mut self)
        requires
            old(self).shape_wf(),
            border_walled(old(self).map@, old(self).spec_width(), old(self).spec_height()),
            rooms_wf(old(self).rooms@, old(self).spec_width(), old(self).spec_height()),
            rooms_cover(
                old(self).map@,
                old(self).spec_width(),
                old(self).spec_height(),
                old(self).rooms@,
            ),
        ensures
            final(self).shape_wf(),
            final(self).size == old(self).size,
            final(self).draw_map == old(self).draw_map,
            final(self).rooms == old(self).rooms,
            border_walled(final(self).map@, old(self).spec_width(), old(self).spec_height()),
            rooms_cover(
                final(self).map@,
                old(self).spec_width(),
                old(self).spec_height(),
                final(self).rooms@,
            ),
            corridor_walled_only(
                old(self).map@,
                final(self).map@,
                old(self).spec_width(),
                old(self).spec_height(),
            ),
            no_dead_end(final(self).map@, old(self).spec_width(), old(self).spec_height()),
            no_dead_end(old(self).map@, old(self).spec_width(), old(self).spec_height())
                ==> final(self).map@ == old(self).map@,
            has_open_cell(old(self).map@, old(self).spec_width(), old(self).spec_height())
                ==> has_open_cell(
                final(self).map@,
                old(self).spec_width(),
                old(self).spec_height(),
            ),
            keeps_reach(
                old(self).map@,
                final(self).map@,
                old(self).spec_width(),
                old(self).spec_height(),
            ),
    {
        let w = self.size.width;
        let h = self.size.height;
        let ghost wi = self.spec_width();
        let ghost hi = self.spec_height();
        let ghost m1 = self.map@;

        let mut count_road: Vec<Vec<i32>> = make_grid(-1i32, w, h);

        // Count the open orthogonal neighbors of every interior corridor
        // cell; all other cells keep the sentinel -1.
        let mut i: usize = 1;
        while i < h - 1
            invariant
                self == old(self),
                wi == old(self).spec_width(),
                hi == old(self).spec_height(),
                m1 == old(self).map@,
                old(self).shape_wf(),
                w == self.size.width,
                h == self.size.height,
                1 <= i <= hi - 1,
                count_road@.len() == hi,
                forall|jj: int| 0 <= jj < hi ==> (#[trigger] count_road@[jj])@.len() == wi,
                forall|x: int, y: int|
                    in_grid(wi, hi, x, y) ==> #[trigger] cnt(count_road@, x, y) == (if interior(
                        wi,
                        hi,
                        x,
                        y,
                    ) && scan_lt(y, x, i as int, 1) && cell(m1, x, y) == MapComponent::Corridor {
                        open_count(m1, x, y)
                    } else {
                        -1
                    }),
            decreases hi - i,
        {
            let mut j: usize = 1;
            while j < w - 1
                invariant
                    self == old(self),
                    wi == old(self).spec_width(),
                    hi == old(self).spec_height(),
                    m1 == old(self).map@,
                    old(self).shape_wf(),
                    w == self.size.width,
                    h == self.size.height,
                    1 <= i < hi - 1,
                    1 <= j <= wi - 1,
                    count_road@.len() == hi,
                    forall|jj: int| 0 <= jj < hi ==> (#[trigger] count_road@[jj])@.len() == wi,
                    forall|x: int, y: int|
                        in_grid(wi, hi, x, y) ==> #[trigger] cnt(count_road@, x, y) == (if
                        interior(wi, hi, x, y) && scan_lt(y, x, i as int, j as int) && cell(
                            m1,
                            x,
                            y,
                        ) == MapComponent::Corridor {
                            open_count(m1, x, y)
                        } else {
                            -1
                        }),
                decreases wi - j,
            {
                let ghost cpre = count_road@;
                match self.map[i][j] {
                    MapComponent::Corridor => {
                        let mut count: i32 = 0;
                        match self.map[i - 1][j] {
                            MapComponent::Corridor => count = count + 1,
                            MapComponent::Room => count = count + 1,
                            _ => {},
                        }
                        match self.map[i + 1][j] {
                            MapComponent::Corridor => count = count + 1,
                            MapComponent::Room => count = count + 1,
                            _ => {},
                        }
                        match self.map[i][j - 1] {
                            MapComponent::Corridor => count = count + 1,
                            MapComponent::Room => count = count + 1,
                            _ => {},
                        }
                        match self.map[i][j + 1] {
                            MapComponent::Corridor => count = count + 1,
                            MapComponent::Room => count = count + 1,
                            _ => {},
                        }
                        proof {
                            assert(count as int == open_count(m1, j as int, i as int));
                        }
                        set_cell(&mut count_road, j, i, count);
                        proof {
                            assert forall|x: int, y: int| in_grid(wi, hi, x, y) implies #[trigger] cnt(
                                count_road@,
                                x,
                                y,
                            ) == (if interior(wi, hi, x, y) && scan_lt(y, x, i as int, j + 1) && cell(
                                m1,
                                x,
                                y,
                            ) == MapComponent::Corridor {
                                open_count(m1, x, y)
                            } else {
                                -1
                            }) by {
                                if x == j && y == i {
                                } else {
                                    assert(cell(count_road@, x, y) == cell(cpre, x, y));
                                    assert(cnt(cpre, x, y) == (if interior(wi, hi, x, y) && scan_lt(
                                        y,
                                        x,
                                        i as int,
                                        j as int,
                                    ) && cell(m1, x, y) == MapComponent::Corridor {
                                        open_count(m1, x, y)
                                    } else {
                                        -1
                                    }));
                                }
                            };
                        }
                    },
                    _ => {
                        proof {
                            assert forall|x: int, y: int| in_grid(wi, hi, x, y) implies #[trigger] cnt(
                                count_road@,
                                x,
                                y,
                            ) == (if interior(wi, hi, x, y) && scan_lt(y, x, i as int, j + 1) && cell(
                                m1,
                                x,
                                y,
                            ) == MapComponent::Corridor {
                                open_count(m1, x, y)
                            } else {
                                -1
                            }) by {
                                assert(cnt(cpre, x, y) == (if interior(wi, hi, x, y) && scan_lt(
                                    y,
                                    x,
                                    i as int,
                                    j as int,
                                ) && cell(m1, x, y) == MapComponent::Corridor {
                                    open_count(m1, x, y)
                                } else {
                                    -1
                                }));
                            };
                        }
                    },
                }
                j = j + 1;
            }
            i = i + 1;
        }

        proof {
            assert(counts_ok(self.map@, count_road@, wi, hi)) by {
                assert forall|x: int, y: int| in_grid(wi, hi, x, y) implies ((interior(wi, hi, x, y)
                    && cell(self.map@, x, y) == MapComponent::Corridor ==> #[trigger] cnt(
                    count_road@,
                    x,
                    y,
                ) == open_count(self.map@, x, y)) && (!(interior(wi, hi, x, y) && cell(
                    self.map@,
                    x,
                    y,
                ) == MapComponent::Corridor) ==> -1 - wall_nb(self.map@, wi, hi, x, y) <= cnt(
                    count_road@,
                    x,
                    y,
                ) <= 0)) by {
                    assert(cnt(count_road@, x, y) == (if interior(wi, hi, x, y) && scan_lt(
                        y,
                        x,
                        hi - 1,
                        1,
                    ) && cell(m1, x, y) == MapComponent::Corridor {
                        open_count(m1, x, y)
                    } else {
                        -1
                    }));
                };
            };
        }

        proof {
            assert(keeps_reach(m1, m1, wi, hi));
        }

        // Wall off each dead end and follow its spur.
        let mut i: usize = 1;
        while i < h - 1
            invariant
                self.size == old(self).size,
                self.draw_map == old(self).draw_map,
                self.rooms == old(self).rooms,
                self.shape_wf(),
                wi == old(self).spec_width(),
                hi == old(self).spec_height(),
                m1 == old(self).map@,
                old(self).shape_wf(),
                w == self.size.width,
                h == self.size.height,
                1 <= i <= hi - 1,
                count_road@.len() == hi,
                forall|jj: int| 0 <= jj < hi ==> (#[trigger] count_road@[jj])@.len() == wi,
                border_walled(self.map@, wi, hi),
                corridor_walled_only(m1, self.map@, wi, hi),
                counts_ok(self.map@, count_road@, wi, hi),
                prefix_ok(count_road@, wi, hi, i as int, 1),
                no_dead_end(m1, wi, hi) ==> self.map@ == m1,
                self.map@ == m1 || has_open_cell(self.map@, wi, hi),
                keeps_reach(m1, self.map@, wi, hi),
            decreases hi - i,
        {
            let mut j: usize = 1;
            while j < w - 1
                invariant
                    self.size == old(self).size,
                    self.draw_map == old(self).draw_map,
                    self.rooms == old(self).rooms,
                    self.shape_wf(),
                    wi == old(self).spec_width(),
                    hi == old(self).spec_height(),
                    m1 == old(self).map@,
                    old(self).shape_wf(),
                    w == self.size.width,
                    h == self.size.height,
                    1 <= i < hi - 1,
                    1 <= j <= wi - 1,
                    count_road@.len() == hi,
                    forall|jj: int| 0 <= jj < hi ==> (#[trigger] count_road@[jj])@.len() == wi,
                    border_walled(self.map@, wi, hi),
                    corridor_walled_only(m1, self.map@, wi, hi),
                    counts_ok(self.map@, count_road@, wi, hi),
                    prefix_ok(count_road@, wi, hi, i as int, j as int),
                    no_dead_end(m1, wi, hi) ==> self.map@ == m1,
                    self.map@ == m1 || has_open_cell(self.map@, wi, hi),
                    keeps_reach(m1, self.map@, wi, hi),
                decreases wi - j,
            {
                if count_road[i][j] == 1 {
                    proof {
                        assert(cnt(count_road@, j as int, i as int) == 1);
                        assert(!no_dead_end(m1, wi, hi)) by {
                            if no_dead_end(m1, wi, hi) {
                                assert(self.map@ == m1);
                                assert(cell(m1, j as int, i as int) == MapComponent::Corridor);
                                assert(is_open(cell(m1, j as int, i as int)));
                                assert(open_count(m1, j as int, i as int) == 1);
                            }
                        };
                    }
                    let mut k: usize = i;
                    let mut l: usize = j;

                    loop
                        invariant_except_break
                            self.size == old(self).size,
                            self.draw_map == old(self).draw_map,
                            self.rooms == old(self).rooms,
                            self.shape_wf(),
                            wi == old(self).spec_width(),
                            hi == old(self).spec_height(),
                            m1 == old(self).map@,
                            old(self).shape_wf(),
                            w == self.size.width,
                            h == self.size.height,
                            1 <= i < hi - 1,
                            1 <= j < wi - 1,
                            count_road@.len() == hi,
                            forall|jj: int|
                                0 <= jj < hi ==> (#[trigger] count_road@[jj])@.len() == wi,
                            border_walled(self.map@, wi, hi),
                            corridor_walled_only(m1, self.map@, wi, hi),
                            counts_ok(self.map@, count_road@, wi, hi),
                            !no_dead_end(m1, wi, hi),
                            keeps_reach(m1, self.map@, wi, hi),
                            interior(wi, hi, l as int, k as int),
                            cell(self.map@, l as int, k as int) == MapComponent::Corridor,
                            cnt(count_road@, l as int, k as int) == 1,
                            forall|xx: int, yy: int|
                                interior(wi, hi, xx, yy) && scan_le(yy, xx, i as int, j as int)
                                    && !(xx == l as int && yy == k as int) ==> #[trigger] cnt(
                                    count_road@,
                                    xx,
                                    yy,
                                ) != 1,
                        ensures
                            self.size == old(self).size,
                            self.draw_map == old(self).draw_map,
                            self.rooms == old(self).rooms,
                            self.shape_wf(),
                            count_road@.len() == hi,
                            forall|jj: int|
                                0 <= jj < hi ==> (#[trigger] count_road@[jj])@.len() == wi,
                            border_walled(self.map@, wi, hi),
                            corridor_walled_only(m1, self.map@, wi, hi),
                            counts_ok(self.map@, count_road@, wi, hi),
                            !no_dead_end(m1, wi, hi),
                            has_open_cell(self.map@, wi, hi),
                            keeps_reach(m1, self.map@, wi, hi),
                            forall|xx: int, yy: int|
                                interior(wi, hi, xx, yy) && scan_le(yy, xx, i as int, j as int)
                                    ==> #[trigger] cnt(count_road@, xx, yy) != 1,
                        decreases corridor_coords(self.map@, wi, hi).len(),
                    {
                        let ghost mprev = self.map@;
                        let ghost c0 = count_road@;
                        let ghost lx = l as int;
                        let ghost ky = k as int;

                        proof {
                            assert(open_count(mprev, lx, ky) == 1);
                            assert(-5 <= cnt(c0, lx, ky) <= 4);
                            assert(-5 <= cnt(c0, lx, ky - 1) <= 4);
                            assert(-5 <= cnt(c0, lx, ky + 1) <= 4);
                            assert(-5 <= cnt(c0, lx - 1, ky) <= 4);
                            assert(-5 <= cnt(c0, lx + 1, ky) <= 4);
                            lemma_corridor_card(mprev, wi, hi);
                        }

                        set_cell(&mut self.map, l, k, MapComponent::Wall);
                        proof {
                            let v = Vec2 { x: l as isize, y: k as isize };
                            assert(corridor_coords(self.map@, wi, hi) =~= corridor_coords(
                                mprev,
                                wi,
                                hi,
                            ).remove(v)) by {
                                assert forall|p: Vec2<isize>|
                                    corridor_coords(self.map@, wi, hi).contains(p)
                                        == (corridor_coords(mprev, wi, hi).contains(p) && p
                                        != v) by {
                                    if in_grid(wi, hi, p.x as int, p.y as int) && p != v {
                                        assert(cell(self.map@, p.x as int, p.y as int) == cell(
                                            mprev,
                                            p.x as int,
                                            p.y as int,
                                        ));
                                    }
                                };
                            };
                            assert(corridor_coords(mprev, wi, hi).contains(v));
                            assert(corridor_coords(self.map@, wi, hi).len() < corridor_coords(
                                mprev,
                                wi,
                                hi,
                            ).len());
                        }

                        let cc = count_road[k][l];
                        proof {
                            assert(cc as int == cnt(c0, lx, ky));
                        }
                        set_cell(&mut count_road, l, k, cc - 1);
                        let ghost c1 = count_road@;
                        let cu = count_road[k - 1][l];
                        proof {
                            assert(cu as int == cnt(c1, lx, ky - 1));
                            assert(cnt(c1, lx, ky - 1) == cnt(c0, lx, ky - 1));
                        }
                        set_cell(&mut count_road, l, k - 1, cu - 1);
                        let ghost c2 = count_road@;
                        let cd = count_road[k + 1][l];
                        proof {
                            assert(cd as int == cnt(c2, lx, ky + 1));
                            assert(cnt(c2, lx, ky + 1) == cnt(c1, lx, ky + 1));
                            assert(cnt(c1, lx, ky + 1) == cnt(c0, lx, ky + 1));
                        }
                        set_cell(&mut count_road, l, k + 1, cd - 1);
                        let ghost c3 = count_road@;
                        let cle = count_road[k][l - 1];
                        proof {
                            assert(cle as int == cnt(c3, lx - 1, ky));
                            assert(cnt(c3, lx - 1, ky) == cnt(c2, lx - 1, ky));
                            assert(cnt(c2, lx - 1, ky) == cnt(c1, lx - 1, ky));
                            assert(cnt(c1, lx - 1, ky) == cnt(c0, lx - 1, ky));
                        }
                        set_cell(&mut count_road, l - 1, k, cle - 1);
                        let ghost c4 = count_road@;
                        let cri = count_road[k][l + 1];
                        proof {
                            assert(cri as int == cnt(c4, lx + 1, ky));
                            assert(cnt(c4, lx + 1, ky) == cnt(c3, lx + 1, ky));
                            assert(cnt(c3, lx + 1, ky) == cnt(c2, lx + 1, ky));
                            assert(cnt(c2, lx + 1, ky) == cnt(c1, lx + 1, ky));
                            assert(cnt(c1, lx + 1, ky) == cnt(c0, lx + 1, ky));
                        }
                        set_cell(&mut count_road, l + 1, k, cri - 1);

                        proof {
                            // What each count cell holds now.
                            assert(cnt(count_road@, lx, ky) == cnt(c0, lx, ky) - 1);
                            assert(cnt(count_road@, lx, ky - 1) == cnt(c0, lx, ky - 1) - 1);
                            assert(cnt(count_road@, lx, ky + 1) == cnt(c0, lx, ky + 1) - 1);
                            assert(cnt(count_road@, lx - 1, ky) == cnt(c0, lx - 1, ky) - 1);
                            assert(cnt(count_road@, lx + 1, ky) == cnt(c0, lx + 1, ky) - 1);
                            assert forall|x: int, y: int|
                                in_grid(wi, hi, x, y) && !(x == lx && y == ky) && !(x == lx && y
                                    == ky - 1) && !(x == lx && y == ky + 1) && !(x == lx - 1 && y
                                    == ky) && !(x == lx + 1 && y == ky) implies #[trigger] cnt(
                                count_road@,
                                x,
                                y,
                            ) == cnt(c0, x, y) by {
                                assert(cell(c1, x, y) == cell(c0, x, y));
                                assert(cell(c2, x, y) == cell(c1, x, y));
                                assert(cell(c3, x, y) == cell(c2, x, y));
                                assert(cell(c4, x, y) == cell(c3, x, y));
                                assert(cell(count_road@, x, y) == cell(c4, x, y));
                            };

                            // The walled cell had exactly one open neighbor.
                            assert(counts_ok(self.map@, count_road@, wi, hi)) by {
                                assert forall|x: int, y: int| in_grid(wi, hi, x, y) implies ((
                                interior(wi, hi, x, y) && cell(self.map@, x, y)
                                    == MapComponent::Corridor ==> #[trigger] cnt(count_road@, x, y)
                                    == open_count(self.map@, x, y)) && (!(interior(wi, hi, x, y)
                                    && cell(self.map@, x, y) == MapComponent::Corridor) ==> -1
                                    - wall_nb(self.map@, wi, hi, x, y) <= cnt(count_road@, x, y)
                                    <= 0)) by {
                                    let cold = cnt(c0, x, y);
                                    let mold = cell(mprev, x, y);
                                    if x == lx && y == ky {
                                        assert(cell(self.map@, x, y) == MapComponent::Wall);
                                        assert(cnt(count_road@, x, y) == 0);
                                    } else if (x == lx && (y == ky - 1 || y == ky + 1)) || (y == ky
                                        && (x == lx - 1 || x == lx + 1)) {
                                        assert(cell(self.map@, x, y) == cell(mprev, x, y));
                                        assert(cnt(count_road@, x, y) == cnt(c0, x, y) - 1);
                                        assert(wall_nb(self.map@, wi, hi, x, y) == wall_nb(
                                            mprev,
                                            wi,
                                            hi,
                                            x,
                                            y,
                                        ) + 1);
                                        if interior(wi, hi, x, y) && cell(self.map@, x, y)
                                            == MapComponent::Corridor {
                                            assert(open_count(self.map@, x, y) == open_count(
                                                mprev,
                                                x,
                                                y,
                                            ) - 1);
                                        }
                                    } else {
                                        assert(cnt(count_road@, x, y) == cnt(c0, x, y));
                                        assert(cell(self.map@, x, y) == cell(mprev, x, y));
                                        assert(wall_nb(self.map@, wi, hi, x, y) == wall_nb(
                                            mprev,
                                            wi,
                                            hi,
                                            x,
                                            y,
                                        ));
                                        if interior(wi, hi, x, y) {
                                            assert(cell(self.map@, x, y - 1) == cell(
                                                mprev,
                                                x,
                                                y - 1,
                                            ));
                                            assert(cell(self.map@, x, y + 1) == cell(
                                                mprev,
                                                x,
                                                y + 1,
                                            ));
                                            assert(cell(self.map@, x - 1, y) == cell(
                                                mprev,
                                                x - 1,
                                                y,
                                            ));
                                            assert(cell(self.map@, x + 1, y) == cell(
                                                mprev,
                                                x + 1,
                                                y,
                                            ));
                                            assert(open_count(self.map@, x, y) == open_count(
                                                mprev,
                                                x,
                                                y,
                                            ));
                                        }
                                    }
                                };
                            };

                            // Non-open neighbors cannot score 1 afterwards.
                            assert(!is_open(cell(mprev, lx, ky - 1)) ==> cnt(
                                count_road@,
                                lx,
                                ky - 1,
                            ) <= -1);
                            assert(!is_open(cell(mprev, lx, ky + 1)) ==> cnt(
                                count_road@,
                                lx,
                                ky + 1,
                            ) <= -1);
                            assert(!is_open(cell(mprev, lx - 1, ky)) ==> cnt(
                                count_road@,
                                lx - 1,
                                ky,
                            ) <= -1);
                            assert(!is_open(cell(mprev, lx + 1, ky)) ==> cnt(
                                count_road@,
                                lx + 1,
                                ky,
                            ) <= -1);

                            // Walling a leaf cell disconnects nothing.
                            let cvec = Vec2 { x: l as isize, y: k as isize };
                            assert forall|a: Vec2<isize>, b: Vec2<isize>|
                                in_grid(wi, hi, a.x as int, a.y as int) && in_grid(
                                    wi,
                                    hi,
                                    b.x as int,
                                    b.y as int,
                                ) && is_open(cell(self.map@, a.x as int, a.y as int)) && is_open(
                                    cell(self.map@, b.x as int, b.y as int),
                                ) && #[trigger] reaches(m1, wi, hi, a, b) implies reaches(
                                self.map@,
                                wi,
                                hi,
                                a,
                                b,
                            ) by {
                                assert(cell(self.map@, lx, ky) == MapComponent::Wall);
                                assert(a != cvec && b != cvec);
                                assert(cell(self.map@, a.x as int, a.y as int) == cell(
                                    mprev,
                                    a.x as int,
                                    a.y as int,
                                ));
                                assert(cell(self.map@, b.x as int, b.y as int) == cell(
                                    mprev,
                                    b.x as int,
                                    b.y as int,
                                ));
                                assert(reaches(mprev, wi, hi, a, b));
                                let p = choose|p: Seq<Vec2<isize>>|
                                    open_path(mprev, wi, hi, p) && p[0] == a && p.last() == b;
                                assert forall|x: int, y: int|
                                    in_grid(wi, hi, x, y) && !(x == cvec.x as int && y
                                        == cvec.y as int) implies #[trigger] cell(self.map@, x, y)
                                    == cell(mprev, x, y) by {};
                                lemma_wall_leaf_keeps_path(mprev, self.map@, wi, hi, cvec, p);
                                assert(reaches(self.map@, wi, hi, a, b));
                            };
                        }

                        if count_road[k - 1][l] == 1 {
                            proof {
                                assert(cnt(count_road@, lx, ky - 1) == 1);
                                assert(is_open(cell(mprev, lx, ky - 1)));
                            }
                            k = k - 1;
                        } else if count_road[k + 1][l] == 1 {
                            proof {
                                assert(cnt(count_road@, lx, ky + 1) == 1);
                                assert(is_open(cell(mprev, lx, ky + 1)));
                                assert(!is_open(cell(mprev, lx, ky - 1)));
                            }
                            k = k + 1;
                        } else if count_road[k][l - 1] == 1 {
                            proof {
                                assert(cnt(count_road@, lx - 1, ky) == 1);
                                assert(is_open(cell(mprev, lx - 1, ky)));
                            }
                            l = l - 1;
                        } else if count_road[k][l + 1] == 1 {
                            proof {
                                assert(cnt(count_road@, lx + 1, ky) == 1);
                                assert(is_open(cell(mprev, lx + 1, ky)));
                            }
                            l = l + 1;
                        } else {
                            proof {
                                // The walled cell had exactly one open
                                // neighbor, and it is still open.
                                if is_open(cell(mprev, lx, ky - 1)) {
                                    assert(cell(self.map@, lx, ky - 1) == cell(mprev, lx, ky - 1));
                                    assert(in_grid(wi, hi, lx, ky - 1) && is_open(
                                        cell(self.map@, lx, ky - 1),
                                    ));
                                } else if is_open(cell(mprev, lx, ky + 1)) {
                                    assert(cell(self.map@, lx, ky + 1) == cell(mprev, lx, ky + 1));
                                    assert(in_grid(wi, hi, lx, ky + 1) && is_open(
                                        cell(self.map@, lx, ky + 1),
                                    ));
                                } else if is_open(cell(mprev, lx - 1, ky)) {
                                    assert(cell(self.map@, lx - 1, ky) == cell(mprev, lx - 1, ky));
                                    assert(in_grid(wi, hi, lx - 1, ky) && is_open(
                                        cell(self.map@, lx - 1, ky),
                                    ));
                                } else {
                                    assert(is_open(cell(mprev, lx + 1, ky)));
                                    assert(cell(self.map@, lx + 1, ky) == cell(mprev, lx + 1, ky));
                                    assert(in_grid(wi, hi, lx + 1, ky) && is_open(
                                        cell(self.map@, lx + 1, ky),
                                    ));
                                }
                                assert(has_open_cell(self.map@, wi, hi));
                            }
                            break ;
                        }
                        proof {
                            assert(cell(self.map@, l as int, k as int) == cell(
                                mprev,
                                l as int,
                                k as int,
                            ));
                            assert(cnt(count_road@, l as int, k as int) == 1);
                            assert(cell(self.map@, l as int, k as int) == MapComponent::Corridor);
                            assert forall|xx: int, yy: int|
                                interior(wi, hi, xx, yy) && scan_le(yy, xx, i as int, j as int)
                                    && !(xx == l as int && yy == k as int) implies #[trigger] cnt(
                                count_road@,
                                xx,
                                yy,
                            ) != 1 by {
                                let was = cnt(c0, xx, yy);
                                if xx == lx && yy == ky {
                                } else if (xx == lx && (yy == ky - 1 || yy == ky + 1)) || (yy == ky
                                    && (xx == lx - 1 || xx == lx + 1)) {
                                    assert(open_count(mprev, lx, ky) == 1);
                                    if cnt(count_road@, xx, yy) == 1 {
                                        assert(is_open(cell(mprev, xx, yy)));
                                    }
                                } else {
                                    assert(cnt(count_road@, xx, yy) == cnt(c0, xx, yy));
                                }
                            };
                        }
                    }
                }
                j = j + 1;
            }
            i = i + 1;
        }

        proof {
            assert forall|x: int, y: int| in_grid(wi, hi, x, y) implies ((#[trigger] cell(
                self.map@,
                x,
                y,
            )) == MapComponent::Room <==> exists|kk: int|
                0 <= kk < self.rooms@.len() && #[trigger] room_contains(
                    self.rooms@[kk],
                    x,
                    y,
                )) by {
                assert(cell(self.map@, x, y) == cell(m1, x, y) || (cell(m1, x, y)
                    == MapComponent::Corridor && cell(self.map@, x, y) == MapComponent::Wall));
            };
            assert forall|x: int, y: int|
                interior(wi, hi, x, y) && is_open(#[trigger] cell(self.map@, x, y)) implies
                open_count(self.map@, x, y) != 1 by {
                if cell(self.map@, x, y) == MapComponent::Corridor {
                    assert(cnt(count_road@, x, y) == open_count(self.map@, x, y));
                    assert(scan_lt(y, x, hi - 1, 1));
                    assert(cnt(count_road@, x, y) != 1);
                } else {
                    assert(cell(self.map@, x, y) == MapComponent::Room);
                    lemma_room_cell_open(self.map@, wi, hi, self.rooms@, x, y);
                }
            };
        }
    }
}

} // verus!
