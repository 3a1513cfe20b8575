//! The maze carving phase: randomized backtracking wall growth.
//!
//! Walls are grown from lattice posts two cells at a time until the growth
//! head strikes an existing wall; the tentative path is then committed as
//! wall. A growth head with no fresh direction left rolls back one step.
//! Cells that ever entered the tentative set stay barred for the rest of
//! the attempt, which bounds the attempt and makes termination provable.

use vstd::prelude::*;

use crate::map_component::MapComponent;
use crate::random_map::RandomMap;
use crate::random_map::border_walled;
use crate::random_map::cell;
use crate::random_map::dims_ok;
use crate::random_map::in_grid;
use crate::random_map::lattice_post;
use crate::random_map::on_border;
use crate::random_map::post_ok;
use crate::random_map::room_free;
use crate::random_map::set_cell;
use crate::random_source::RandomSource;
use crate::vector2::Vec2;

verus! {

/// The coordinate `p` moved by `(dx, dy)`.
pub open spec fn vshift(p: Vec2<isize>, dx: int, dy: int) -> Vec2<isize> {
    Vec2 { x: (p.x + dx) as isize, y: (p.y + dy) as isize }
}

/// Both components are even: the coordinate lies on the post lattice.
pub open spec fn coord_even(p: Vec2<isize>) -> bool {
    p.x % 2 == 0 && p.y % 2 == 0
}

/// Both components are odd: true of no cell a wall path can visit, since
/// growth heads sit on the even lattice and edge middles keep one even
/// component.
pub open spec fn coord_odd_odd(p: Vec2<isize>) -> bool {
    p.x % 2 != 0 && p.y % 2 != 0
}

/// `(mid, tgt)` is one growth step from `c`: `tgt` two cells away along an
/// axis, `mid` the cell between.
pub open spec fn step_pair(c: Vec2<isize>, mid: Vec2<isize>, tgt: Vec2<isize>) -> bool {
    ||| (mid == vshift(c, 0, -1) && tgt == vshift(c, 0, -2))
    ||| (mid == vshift(c, 0, 1) && tgt == vshift(c, 0, 2))
    ||| (mid == vshift(c, -1, 0) && tgt == vshift(c, -2, 0))
    ||| (mid == vshift(c, 1, 0) && tgt == vshift(c, 2, 0))
}

/// For a cell with an odd component (the middle of a lattice edge), both
/// lattice endpoints of that edge are in `s`.
pub open spec fn edge_endpoints_in(s: Seq<Vec2<isize>>, p: Vec2<isize>) -> bool {
    if p.x % 2 != 0 {
        s.contains(vshift(p, -1, 0)) && s.contains(vshift(p, 1, 0))
    } else {
        s.contains(vshift(p, 0, -1)) && s.contains(vshift(p, 0, 1))
    }
}

/// Every cell of `s` is inside the `w` by `h` grid.
pub open spec fn coords_in_grid(s: Seq<Vec2<isize>>, w: int, h: int) -> bool {
    forall|k: int| 0 <= k < s.len() ==> in_grid(w, h, (#[trigger] s[k]).x as int, s[k].y as int)
}

/// Pushing a fresh element keeps a sequence duplicate-free.
proof fn lemma_push_fresh_no_dup<A>(s: Seq<A>, v: A)
    requires
        s.no_duplicates(),
        !s.contains(v),
    ensures
        s.push(v).no_duplicates(),
{
    let t = s.push(v);
    assert forall|i: int, j: int| 0 <= i < t.len() && 0 <= j < t.len() && i != j implies t[i]
        != t[j] by {
        if i < s.len() && j < s.len() {
        } else if i < s.len() {
            assert(s.contains(s[i]));
        } else if j < s.len() {
            assert(s.contains(s[j]));
        }
    }
}

/// Removing one position can only erase that position's element from the
/// sequence's contents.
proof fn lemma_remove_contains<A>(s: Seq<A>, r: int, d: A)
    requires
        0 <= r < s.len(),
        s.contains(d),
        !s.remove(r).contains(d),
    ensures
        d == s[r],
{
    let k = choose|k: int| 0 <= k < s.len() && s[k] == d;
    if k < r {
        assert(s.remove(r)[k] == d);
    } else if k > r {
        assert(s.remove(r)[k - 1] == d);
    }
}

/// The coordinates of one grid row `y`: `(x, y)` for `0 <= x < w`.
pub open spec fn row_coord_set(w: int, y: int) -> Set<Vec2<isize>> {
    Set::new(|p: Vec2<isize>| 0 <= p.x < w && p.y == y)
}

/// The coordinates of the `w` by `h` grid.
pub open spec fn grid_coord_set(w: int, h: int) -> Set<Vec2<isize>> {
    Set::new(|p: Vec2<isize>| in_grid(w, h, p.x as int, p.y as int))
}

/// A grid row holds `w` coordinates.
proof fn lemma_row_card(w: int, y: int)
    requires
        0 <= w <= isize::MAX,
        0 <= y <= isize::MAX,
    ensures
        row_coord_set(w, y).finite(),
        row_coord_set(w, y).len() == w,
    decreases w,
{
    if w == 0 {
        assert(row_coord_set(0, y) =~= Set::empty());
    } else {
        lemma_row_card(w - 1, y);
        let e = Vec2 { x: (w - 1) as isize, y: y as isize };
        assert(row_coord_set(w, y) =~= row_coord_set(w - 1, y).insert(e));
        assert(!row_coord_set(w - 1, y).contains(e));
    }
}

/// The grid holds at most `w * h` coordinates.
pub(crate) proof fn lemma_grid_card(w: int, h: int)
    requires
        0 <= w <= isize::MAX,
        0 <= h <= isize::MAX,
    ensures
        grid_coord_set(w, h).finite(),
        grid_coord_set(w, h).len() <= w * h,
    decreases h,
{
    if h == 0 {
        assert(grid_coord_set(w, 0) =~= Set::empty());
    } else {
        lemma_grid_card(w, h - 1);
        lemma_row_card(w, h - 1);
        assert(grid_coord_set(w, h) =~= grid_coord_set(w, h - 1).union(row_coord_set(w, h - 1)));
        vstd::set_lib::lemma_len_union(grid_coord_set(w, h - 1), row_coord_set(w, h - 1));
        assert(w * (h - 1) + w == w * h) by (nonlinear_arith);
    }
}

/// A duplicate-free sequence of grid coordinates has at most `w * h`
/// entries.
proof fn lemma_coords_bounded(s: Seq<Vec2<isize>>, w: int, h: int)
    requires
        s.no_duplicates(),
        coords_in_grid(s, w, h),
        0 <= w <= isize::MAX,
        0 <= h <= isize::MAX,
    ensures
        s.len() <= w * h,
{
    s.unique_seq_to_set();
    assert forall|p: Vec2<isize>| s.to_set().contains(p) implies grid_coord_set(w, h).contains(
        p,
    ) by {
        let k = choose|k: int| 0 <= k < s.len() && s[k] == p;
        assert(in_grid(w, h, s[k].x as int, s[k].y as int));
    }
    lemma_grid_card(w, h);
    vstd::set_lib::lemma_len_subset(s.to_set(), grid_coord_set(w, h));
}

/// Whether the sequence holds coordinate `v`, by linear scan.
fn contains_coord(s: &Vec<Vec2<isize>>, v: Vec2<isize>) -> (r: bool)
    ensures
        r == s@.contains(v),
{
    let mut k: usize = 0;
    while k < s.len()
        invariant
            k <= s@.len(),
            forall|i: int| 0 <= i < k ==> s@[i] != v,
        decreases s@.len() - k,
    {
        if s[k].x == v.x && s[k].y == v.y {
            proof {
                assert(s@[k as int] == v);
            }
            return true;
        }
        k = k + 1;
    }
    false
}

/// Draw directions in random order until one leads to a target two cells
/// away that is not yet a wall candidate. Returns the mid and target cell
/// of the first such direction, or `None` when all four targets are
/// already candidates.
fn pick_direction<R: RandomSource>(
    rng: &mut R,
    cand: &Vec<Vec2<isize>>,
    cursor: Vec2<isize>,
) -> (r: Option<(Vec2<isize>, Vec2<isize>)>)
    requires
        2 <= cursor.x && cursor.x + 2 <= isize::MAX,
        2 <= cursor.y && cursor.y + 2 <= isize::MAX,
    ensures
        match r {
            Some(p) => step_pair(cursor, p.0, p.1) && !cand@.contains(p.1),
            None => cand@.contains(vshift(cursor, 0, -2)) && cand@.contains(vshift(cursor, 0, 2))
                && cand@.contains(vshift(cursor, -2, 0)) && cand@.contains(vshift(cursor, 2, 0)),
        },
{
    let mut dirs: Vec<Vec2<isize>> = Vec::new();
    dirs.push(Vec2::new(0, -1));
    dirs.push(Vec2::new(0, 1));
    dirs.push(Vec2::new(-1, 0));
    dirs.push(Vec2::new(1, 0));
    proof {
        assert(dirs@[0] == (Vec2 { x: 0isize, y: -1isize }));
        assert(dirs@[1] == (Vec2 { x: 0isize, y: 1isize }));
        assert(dirs@[2] == (Vec2 { x: -1isize, y: 0isize }));
        assert(dirs@[3] == (Vec2 { x: 1isize, y: 0isize }));
        assert(dirs@.contains(Vec2 { x: 0isize, y: -1isize }));
        assert(dirs@.contains(Vec2 { x: 0isize, y: 1isize }));
        assert(dirs@.contains(Vec2 { x: -1isize, y: 0isize }));
        assert(dirs@.contains(Vec2 { x: 1isize, y: 0isize }));
    }

    while dirs.len() > 0
        invariant
            2 <= cursor.x && cursor.x + 2 <= isize::MAX,
            2 <= cursor.y && cursor.y + 2 <= isize::MAX,
            dirs@.len() <= 4,
            forall|k: int|
                0 <= k < dirs@.len() ==> ((#[trigger] dirs@[k]) == (Vec2 {
                    x: 0isize,
                    y: -1isize,
                }) || dirs@[k] == (Vec2 { x: 0isize, y: 1isize }) || dirs@[k] == (Vec2 {
                    x: -1isize,
                    y: 0isize,
                }) || dirs@[k] == (Vec2 { x: 1isize, y: 0isize })),
            !dirs@.contains(Vec2 { x: 0isize, y: -1isize }) ==> cand@.contains(
                vshift(cursor, 0, -2),
            ),
            !dirs@.contains(Vec2 { x: 0isize, y: 1isize }) ==> cand@.contains(
                vshift(cursor, 0, 2),
            ),
            !dirs@.contains(Vec2 { x: -1isize, y: 0isize }) ==> cand@.contains(
                vshift(cursor, -2, 0),
            ),
            !dirs@.contains(Vec2 { x: 1isize, y: 0isize }) ==> cand@.contains(
                vshift(cursor, 2, 0),
            ),
        decreases dirs@.len(),
    {
        let rand = rng.next_in_range(0, dirs.len() as isize) as usize;
        let dir = dirs[rand];
        let ghost old_dirs = dirs@;
        dirs.remove(rand);

        let mid = cursor.add(dir);
        let target = cursor.add(dir.mul(2));
        proof {
            assert(old_dirs.contains(old_dirs[rand as int]));
        }

        if !contains_coord(cand, target) {
            proof {
                assert(step_pair(cursor, mid, target));
            }
            return Some((mid, target));
        }
        proof {
            assert forall|d: Vec2<isize>| old_dirs.contains(d) && !dirs@.contains(d) implies d
                == old_dirs[rand as int] by {
                lemma_remove_contains(old_dirs, rand as int, d);
            }
        }
    }
    None
}


impl RandomMap {
    /// Carve the maze: wall the outer rim, then repeatedly pick a random
    /// remaining post and grow a wall from it until it joins the existing
    /// walls. A post is consumed once picked, whether it was already walled
    /// or seeded a growth attempt.
    ///
    /// Cells only ever change from their old value to `Wall`; cells with
    /// two odd coordinates are never touched, so a carved maze always
    /// keeps walkable ground; and every lattice post ends as wall, since a
    /// consumed post is walled whether its growth attempt struck a wall or
    /// was closed in place.
    pub fn build_maze<R: RandomSource>(&mut self, rng: &mut R)
        requires
            old(self).shape_wf(),
            room_free(old(self).map@, old(self).spec_width(), old(self).spec_height()),
        ensures
            final(self).shape_wf(),
            final(self).size == old(self).size,
            final(self).draw_map == old(self).draw_map,
            final(self).rooms == old(self).rooms,
            border_walled(final(self).map@, old(self).spec_width(), old(self).spec_height()),
            room_free(final(self).map@, old(self).spec_width(), old(self).spec_height()),
            forall|x: int, y: int|
                in_grid(old(self).spec_width(), old(self).spec_height(), x, y) ==> #[trigger] cell(
                    final(self).map@,
                    x,
                    y,
                ) == cell(old(self).map@, x, y) || cell(final(self).map@, x, y)
                    == MapComponent::Wall,
            forall|x: int, y: int|
                in_grid(old(self).spec_width(), old(self).spec_height(), x, y) && x % 2 == 1 && y
                    % 2 == 1 ==> #[trigger] cell(final(self).map@, x, y) == cell(
                    old(self).map@,
                    x,
                    y,
                ),
            forall|x: int, y: int|
                lattice_post(old(self).spec_width(), old(self).spec_height(), x, y)
                    ==> #[trigger] cell(final(self).map@, x, y) == MapComponent::Wall,
    {
        let ghost wi = self.spec_width();
        let ghost hi = self.spec_height();
        let ghost m0 = self.map@;

        self.build_outerwall();
        proof {
            assert forall|x: int, y: int|
                in_grid(wi, hi, x, y) && x % 2 == 1 && y % 2 == 1 implies #[trigger] cell(
                self.map@,
                x,
                y,
            ) == cell(m0, x, y) by {
                assert(!on_border(wi, hi, x, y));
            };
        }
        let mut posts = self.make_post();
        proof {
            let nx = (wi - 3) / 2;
            let ny = (hi - 3) / 2;
            assert(nx * ny <= 0x4000 * 0x4000) by (nonlinear_arith)
                requires
                    0 <= nx <= 0x4000,
                    0 <= ny <= 0x4000,
            ;
            assert forall|x: int, y: int| lattice_post(wi, hi, x, y) implies exists|k: int|
                0 <= k < posts@.len() && #[trigger] posts@[k] == (Vec2 {
                    x: x as isize,
                    y: y as isize,
                }) by {
                let i = x / 2 - 1;
                let j = y / 2 - 1;
                assert(0 <= i < nx && 0 <= j < ny);
                assert(0 <= i * ny + j && i * ny + j < nx * ny) by (nonlinear_arith)
                    requires
                        0 <= i < nx,
                        0 <= j < ny,
                ;
                assert(posts@[i * ((hi - 3) / 2) + j] == (Vec2 {
                    x: (2 * (i + 1)) as isize,
                    y: (2 * (j + 1)) as isize,
                }));
                assert(2 * (i + 1) == x && 2 * (j + 1) == y);
            };
        }

        while posts.len() > 0
            invariant
                self.size == old(self).size,
                self.draw_map == old(self).draw_map,
                self.rooms == old(self).rooms,
                self.shape_wf(),
                wi == old(self).spec_width(),
                hi == old(self).spec_height(),
                m0 == old(self).map@,
                border_walled(self.map@, wi, hi),
                room_free(self.map@, wi, hi),
                forall|x: int, y: int|
                    in_grid(wi, hi, x, y) ==> #[trigger] cell(self.map@, x, y) == cell(m0, x, y)
                        || cell(self.map@, x, y) == MapComponent::Wall,
                forall|x: int, y: int|
                    in_grid(wi, hi, x, y) && x % 2 == 1 && y % 2 == 1 ==> #[trigger] cell(
                        self.map@,
                        x,
                        y,
                    ) == cell(m0, x, y),
                forall|x: int, y: int|
                    lattice_post(wi, hi, x, y) ==> #[trigger] cell(self.map@, x, y)
                        == MapComponent::Wall || (exists|k: int|
                        0 <= k < posts@.len() && #[trigger] posts@[k] == (Vec2 {
                            x: x as isize,
                            y: y as isize,
                        })),
                forall|k: int| 0 <= k < posts@.len() ==> post_ok(wi, hi, #[trigger] posts@[k]),
                posts@.len() <= 0x1000_0000,
            decreases posts@.len(),
        {
            let pi = rng.next_in_range(0, posts.len() as isize) as usize;
            let post = posts[pi];
            let ghost posts0 = posts@;
            posts.remove(pi);
            proof {
                assert forall|k: int| 0 <= k < posts@.len() implies post_ok(
                    wi,
                    hi,
                    #[trigger] posts@[k],
                ) by {
                    if k < pi {
                        assert(posts@[k] == posts0[k]);
                    } else {
                        assert(posts@[k] == posts0[k + 1]);
                    }
                };
            }

            let ghost m_entry = self.map@;
            match self.get_component(post) {
                Some(MapComponent::Wall) => {
                    // The post was swallowed by an earlier wall: discard it.
                    proof {
                        assert(cell(self.map@, post.x as int, post.y as int)
                            == MapComponent::Wall);
                    }

                    proof {
                        assert forall|x: int, y: int| lattice_post(wi, hi, x, y) implies #[trigger] cell(
                            self.map@,
                            x,
                            y,
                        ) == MapComponent::Wall || (exists|k: int|
                            0 <= k < posts@.len() && #[trigger] posts@[k] == (Vec2 {
                                x: x as isize,
                                y: y as isize,
                            })) by {
                            let v = Vec2 { x: x as isize, y: y as isize };
                            if cell(m_entry, x, y) == MapComponent::Wall {
                                assert(cell(self.map@, x, y) == MapComponent::Wall);
                            } else {
                                assert(exists|k: int|
                                    0 <= k < posts0.len() && #[trigger] posts0[k] == v);
                                if v == post {
                                    assert(cell(self.map@, x, y) == MapComponent::Wall);
                                } else {
                                    let k = choose|k: int|
                                        0 <= k < posts0.len() && #[trigger] posts0[k] == v;
                                    if k < pi {
                                        assert(posts@[k] == posts0[k]);
                                    } else {
                                        assert(posts@[k - 1] == posts0[k]);
                                    }
                                }
                            }
                        };
                    }
                }
                _ => {
                    self.grow_walls_from(rng, post);
                    proof {
                        assert forall|x: int, y: int| in_grid(wi, hi, x, y) implies #[trigger] cell(
                            self.map@,
                            x,
                            y,
                        ) == cell(m0, x, y) || cell(self.map@, x, y) == MapComponent::Wall by {
                            assert(cell(self.map@, x, y) == cell(m_entry, x, y) || cell(
                                self.map@,
                                x,
                                y,
                            ) == MapComponent::Wall);
                            assert(cell(m_entry, x, y) == cell(m0, x, y) || cell(m_entry, x, y)
                                == MapComponent::Wall);
                        };
                        assert forall|x: int, y: int|
                            in_grid(wi, hi, x, y) && x % 2 == 1 && y % 2 == 1 implies #[trigger] cell(
                            self.map@,
                            x,
                            y,
                        ) == cell(m0, x, y) by {
                            assert(cell(self.map@, x, y) == cell(m_entry, x, y));
                            assert(cell(m_entry, x, y) == cell(m0, x, y));
                        };
                        assert(cell(self.map@, post.x as int, post.y as int)
                            == MapComponent::Wall);
                    }

                    proof {
                        assert forall|x: int, y: int| lattice_post(wi, hi, x, y) implies #[trigger] cell(
                            self.map@,
                            x,
                            y,
                        ) == MapComponent::Wall || (exists|k: int|
                            0 <= k < posts@.len() && #[trigger] posts@[k] == (Vec2 {
                                x: x as isize,
                                y: y as isize,
                            })) by {
                            let v = Vec2 { x: x as isize, y: y as isize };
                            if cell(m_entry, x, y) == MapComponent::Wall {
                                assert(cell(self.map@, x, y) == MapComponent::Wall);
                            } else {
                                assert(exists|k: int|
                                    0 <= k < posts0.len() && #[trigger] posts0[k] == v);
                                if v == post {
                                    assert(cell(self.map@, x, y) == MapComponent::Wall);
                                } else {
                                    let k = choose|k: int|
                                        0 <= k < posts0.len() && #[trigger] posts0[k] == v;
                                    if k < pi {
                                        assert(posts@[k] == posts0[k]);
                                    } else {
                                        assert(posts@[k - 1] == posts0[k]);
                                    }
                                }
                            }
                        };
                    }
                }
            }
        }
    }

    /// One growth attempt from `post`: stretch a tentative wall path two
    /// cells at a time until the head strikes an existing wall, then commit
    /// the whole live path as wall. A head with no fresh direction rolls
    /// back one step; a path rolled all the way back is closed by walling
    /// just its seed, so a consumed post always ends as wall.
    ///
    /// Cells only ever change from their old value to `Wall`, and cells
    /// with two odd coordinates are never touched at all.
    #[verifier::rlimit(60)]
    fn grow_walls_from<R: RandomSource>(&mut self, rng: &mut R, post: Vec2<isize>)
        requires
            old(self).shape_wf(),
            border_walled(old(self).map@, old(self).spec_width(), old(self).spec_height()),
            room_free(old(self).map@, old(self).spec_width(), old(self).spec_height()),
            post_ok(old(self).spec_width(), old(self).spec_height(), post),
        ensures
            final(self).shape_wf(),
            final(self).size == old(self).size,
            final(self).draw_map == old(self).draw_map,
            final(self).rooms == old(self).rooms,
            border_walled(final(self).map@, old(self).spec_width(), old(self).spec_height()),
            room_free(final(self).map@, old(self).spec_width(), old(self).spec_height()),
            forall|x: int, y: int|
                in_grid(old(self).spec_width(), old(self).spec_height(), x, y) ==> #[trigger] cell(
                    final(self).map@,
                    x,
                    y,
                ) == cell(old(self).map@, x, y) || cell(final(self).map@, x, y)
                    == MapComponent::Wall,
            forall|x: int, y: int|
                in_grid(old(self).spec_width(), old(self).spec_height(), x, y) && x % 2 == 1 && y
                    % 2 == 1 ==> #[trigger] cell(final(self).map@, x, y) == cell(
                    old(self).map@,
                    x,
                    y,
                ),
            cell(final(self).map@, post.x as int, post.y as int) == MapComponent::Wall,
    {
        broadcast use vstd::seq_lib::lemma_seq_contains_after_push;

        let ghost wi = self.spec_width();
        let ghost hi = self.spec_height();
        let ghost m1 = self.map@;

        let mut cand: Vec<Vec2<isize>> = Vec::new();
        let mut path: Vec<Vec2<isize>> = Vec::new();
        cand.push(post);
        path.push(post);
        let mut cursor = post;
        proof {
            assert(cand@[0] == post);
            assert(cand@.contains(post));
            assert(wi * hi >= 1) by (nonlinear_arith)
                requires
                    wi >= 1 && hi >= 1,
            ;
        }

        loop
            invariant_except_break
                self.size == old(self).size,
                self.draw_map == old(self).draw_map,
                self.rooms == old(self).rooms,
                self.map@ == m1,
                old(self).shape_wf(),
                self.shape_wf(),
                wi == old(self).spec_width(),
                hi == old(self).spec_height(),
                m1 == old(self).map@,
                border_walled(m1, wi, hi),
                room_free(m1, wi, hi),
                cand@.no_duplicates(),
                coords_in_grid(cand@, wi, hi),
                cand@.len() <= wi * hi,
                forall|k: int|
                    0 <= k < cand@.len() && !coord_even(#[trigger] cand@[k])
                        ==> edge_endpoints_in(cand@, cand@[k]),
                cand@.contains(cursor),
                path@.len() >= 1,
                path@.len() % 2 == 1,
                path@[0] == post,
                coords_in_grid(path@, wi, hi),
                forall|k: int| 0 <= k < path@.len() ==> cand@.contains(#[trigger] path@[k]),
                forall|k: int|
                    0 <= k < path@.len() && k % 2 == 0 ==> coord_even(#[trigger] path@[k]),
                forall|k: int| 0 <= k < path@.len() ==> !coord_odd_odd(#[trigger] path@[k]),
                cursor == path@.last(),
            ensures
                self.size == old(self).size,
                self.draw_map == old(self).draw_map,
                self.rooms == old(self).rooms,
                self.shape_wf(),
                border_walled(self.map@, wi, hi),
                room_free(self.map@, wi, hi),
                forall|x: int, y: int|
                    in_grid(wi, hi, x, y) ==> #[trigger] cell(self.map@, x, y) == cell(m1, x, y)
                        || cell(self.map@, x, y) == MapComponent::Wall,
                forall|x: int, y: int|
                    in_grid(wi, hi, x, y) && x % 2 == 1 && y % 2 == 1 ==> #[trigger] cell(
                        self.map@,
                        x,
                        y,
                    ) == cell(m1, x, y),
                cell(self.map@, post.x as int, post.y as int) == MapComponent::Wall,
            decreases wi * hi - cand@.len(), path@.len(),
        {
            let comp = self.get_component(cursor).unwrap();
            match comp {
                MapComponent::Wall => {
                    // The head reached a wall: commit the live path.
                    let mut k: usize = 0;
                    while k < path.len()
                        invariant
                            self.size == old(self).size,
                            self.draw_map == old(self).draw_map,
                            self.rooms == old(self).rooms,
                            old(self).shape_wf(),
                            self.shape_wf(),
                            wi == old(self).spec_width(),
                            hi == old(self).spec_height(),
                            k <= path@.len(),
                            coords_in_grid(path@, wi, hi),
                            path@[0] == post,
                            forall|kk: int|
                                0 <= kk < path@.len() ==> !coord_odd_odd(#[trigger] path@[kk]),
                            border_walled(self.map@, wi, hi),
                            room_free(self.map@, wi, hi),
                            forall|x: int, y: int|
                                in_grid(wi, hi, x, y) ==> #[trigger] cell(self.map@, x, y) == cell(
                                    m1,
                                    x,
                                    y,
                                ) || cell(self.map@, x, y) == MapComponent::Wall,
                            forall|x: int, y: int|
                                in_grid(wi, hi, x, y) && x % 2 == 1 && y % 2 == 1 ==> #[trigger] cell(
                                    self.map@,
                                    x,
                                    y,
                                ) == cell(m1, x, y),
                            k > 0 ==> cell(self.map@, post.x as int, post.y as int)
                                == MapComponent::Wall,
                        decreases path@.len() - k,
                    {
                        let v = path[k];
                        set_cell(&mut self.map, v.x as usize, v.y as usize, MapComponent::Wall);
                        k = k + 1;
                    }
                    break ;
                }
                _ => {
                    // The head stands on open ground strictly inside the
                    // border, so both neighbors in every direction exist.
                    proof {
                        assert(cell(m1, cursor.x as int, cursor.y as int) != MapComponent::Wall);
                        assert(!on_border(wi, hi, cursor.x as int, cursor.y as int));
                        assert(coord_even(cursor));
                        assert(cursor.x != wi - 2 && cursor.y != hi - 2);
                    }
                    let choice = pick_direction(rng, &cand, cursor);
                    match choice {
                        Some((mid, target)) => {
                            let ghost cand0 = cand@;
                            let ghost path0 = path@;
                            let ghost prev = cursor;
                            proof {
                                assert(!coord_even(mid));
                                assert(coord_even(target));
                                assert(in_grid(wi, hi, mid.x as int, mid.y as int));
                                assert(in_grid(wi, hi, target.x as int, target.y as int));
                                assert(!cand0.contains(mid)) by {
                                    if cand0.contains(mid) {
                                        let k = choose|k: int|
                                            0 <= k < cand0.len() && cand0[k] == mid;
                                        assert(!coord_even(cand0[k]));
                                        assert(edge_endpoints_in(cand0, mid));
                                        assert(cand0.contains(target));
                                    }
                                };
                                lemma_push_fresh_no_dup(cand0, mid);
                                lemma_push_fresh_no_dup(cand0.push(mid), target);
                            }
                            cand.push(mid);
                            cand.push(target);
                            path.push(mid);
                            path.push(target);
                            cursor = target;
                            proof {
                                assert(cand@ == cand0.push(mid).push(target));
                                assert(path@ == path0.push(mid).push(target));
                                assert forall|q: Vec2<isize>| #[trigger] cand@.contains(q)
                                    <==> (cand0.contains(q) || q == mid || q == target) by {
                                    vstd::seq_lib::lemma_seq_contains_after_push(cand0, mid, q);
                                    vstd::seq_lib::lemma_seq_contains_after_push(
                                        cand0.push(mid),
                                        target,
                                        q,
                                    );
                                };
                                assert forall|k: int| 0 <= k < cand@.len() implies in_grid(
                                    wi,
                                    hi,
                                    (#[trigger] cand@[k]).x as int,
                                    cand@[k].y as int,
                                ) by {
                                    if k < cand0.len() {
                                        assert(cand@[k] == cand0[k]);
                                    }
                                };
                                lemma_coords_bounded(cand@, wi, hi);
                                assert forall|k: int|
                                    0 <= k < cand@.len() && !coord_even(
                                        #[trigger] cand@[k],
                                    ) implies edge_endpoints_in(cand@, cand@[k]) by {
                                    let q = cand@[k];
                                    if k < cand0.len() {
                                        assert(q == cand0[k]);
                                        assert(edge_endpoints_in(cand0, q));
                                    } else if k == cand0.len() {
                                        assert(q == mid);
                                        assert(cand@.contains(prev));
                                        assert(cand@.contains(target));
                                    } else {
                                        assert(q == target);
                                    }
                                };
                                assert forall|k: int| 0 <= k < path@.len() implies cand@.contains(
                                    #[trigger] path@[k],
                                ) by {
                                    if k < path0.len() {
                                        assert(path@[k] == path0[k]);
                                        assert(cand0.contains(path0[k]));
                                    } else if k == path0.len() {
                                        assert(path@[k] == mid);
                                    } else {
                                        assert(path@[k] == target);
                                    }
                                };
                                assert forall|k: int| 0 <= k < path@.len() implies in_grid(
                                    wi,
                                    hi,
                                    (#[trigger] path@[k]).x as int,
                                    path@[k].y as int,
                                ) by {
                                    if k < path0.len() {
                                        assert(path@[k] == path0[k]);
                                    }
                                };
                                assert forall|k: int|
                                    0 <= k < path@.len() && k % 2 == 0 implies coord_even(
                                    #[trigger] path@[k],
                                ) by {
                                    if k < path0.len() {
                                        assert(path@[k] == path0[k]);
                                    } else if k == path0.len() + 1 {
                                        assert(path@[k] == target);
                                    }
                                };
                                assert forall|k: int| 0 <= k < path@.len() implies !coord_odd_odd(
                                    #[trigger] path@[k],
                                ) by {
                                    if k < path0.len() {
                                        assert(path@[k] == path0[k]);
                                    } else if k == path0.len() {
                                        assert(path@[k] == mid);
                                        assert(coord_even(prev));
                                    } else {
                                        assert(path@[k] == target);
                                    }
                                };
                            }
                        }
                        None => {
                            if path.len() == 1 {
                                // Fully enclosed: close the attempt by
                                // walling the seed itself, so the consumed
                                // post ends as wall like any other.
                                set_cell(
                                    &mut self.map,
                                    cursor.x as usize,
                                    cursor.y as usize,
                                    MapComponent::Wall,
                                );
                                break ;
                            }
                            path.pop();
                            path.pop();
                            let last = path.len() - 1;
                            cursor = path[last];
                            proof {
                                assert(path@.len() % 2 == 1) by {
                                    assert(path@.len() >= 1);
                                };
                                assert(coord_even(cursor));
                            }
                        }
                    }
                }
            }
        }
    }
}
} // verus!
