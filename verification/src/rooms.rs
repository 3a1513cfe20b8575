//! The room placement phase: stamp a random number of odd-sized,
//! odd-aligned rectangular rooms onto the carved maze, rejecting any
//! placement that would overlap an existing room.

use vstd::prelude::*;

use crate::map_component::MapComponent;
use crate::random_map::RandomMap;
use crate::random_map::RoomRect;
use crate::random_map::border_walled;
use crate::random_map::cell;
use crate::random_map::in_grid;
use crate::random_map::room_contains;
use crate::random_map::room_free;
use crate::random_map::room_wf;
use crate::random_map::rooms_cover;
use crate::random_map::rooms_disjoint;
use crate::random_map::rooms_separate;
use crate::random_map::rooms_wf;
use crate::random_map::set_cell;
use crate::random_source::RandomSource;

verus! {

/// Two rectangles of positive extent that are not separated along an axis
/// share a cell: the corner of the overlap region witnesses it.
proof fn lemma_overlap_cell(a: RoomRect, b: RoomRect)
    requires
        !rooms_separate(a, b),
        a.w > 0 && a.h > 0 && b.w > 0 && b.h > 0,
    ensures
        exists|x: int, y: int| room_contains(a, x, y) && #[trigger] room_contains(b, x, y),
{
    let x = if a.x > b.x {
        a.x
    } else {
        b.x
    };
    let y = if a.y > b.y {
        a.y
    } else {
        b.y
    };
    assert(room_contains(a, x, y) && room_contains(b, x, y));
}

/// Whether any cell of the rectangle with corner `(x, y)` and extent
/// `(rw, rh)` is already a room floor.
fn rect_has_room(
    m: &Vec<Vec<MapComponent>>,
    x: usize,
    y: usize,
    rw: usize,
    rh: usize,
) -> (found: bool)
    requires
        x + rw <= usize::MAX,
        y + rh <= usize::MAX,
        y + rh <= m@.len(),
        forall|j: int| 0 <= j < m@.len() ==> x + rw <= (#[trigger] m@[j])@.len(),
    ensures
        found == exists|xx: int, yy: int|
            x <= xx < x + rw && y <= yy < y + rh && #[trigger] cell(m@, xx, yy)
                == MapComponent::Room,
{
    let mut j: usize = y;
    while j < y + rh
        invariant
            y <= j <= y + rh,
            x + rw <= usize::MAX,
            y + rh <= usize::MAX,
            y + rh <= m@.len(),
            forall|jj: int| 0 <= jj < m@.len() ==> x + rw <= (#[trigger] m@[jj])@.len(),
            forall|xx: int, yy: int|
                x <= xx < x + rw && y <= yy < j ==> #[trigger] cell(m@, xx, yy)
                    != MapComponent::Room,
        decreases y + rh - j,
    {
        let mut i: usize = x;
        while i < x + rw
            invariant
                y <= j < y + rh,
                x <= i <= x + rw,
                x + rw <= usize::MAX,
                y + rh <= usize::MAX,
                y + rh <= m@.len(),
                forall|jj: int| 0 <= jj < m@.len() ==> x + rw <= (#[trigger] m@[jj])@.len(),
                forall|xx: int, yy: int|
                    x <= xx < x + rw && y <= yy < j ==> #[trigger] cell(m@, xx, yy)
                        != MapComponent::Room,
                forall|xx: int| x <= xx < i ==> #[trigger] cell(m@, xx, j as int)
                    != MapComponent::Room,
            decreases x + rw - i,
        {
            match m[j][i] {
                MapComponent::Room => {
                    proof {
                        assert(cell(m@, i as int, j as int) == MapComponent::Room);
                    }
                    return true;
                }
                _ => {},
            }
            i = i + 1;
        }
        j = j + 1;
    }
    false
}

/// Overwrite every cell of the rectangle with corner `(x, y)` and extent
/// `(rw, rh)` with room floor, leaving all other cells unchanged.
fn fill_rect(m: &mut Vec<Vec<MapComponent>>, x: usize, y: usize, rw: usize, rh: usize)
    requires
        x + rw <= usize::MAX,
        y + rh <= usize::MAX,
        y + rh <= old(m)@.len(),
        forall|j: int| 0 <= j < old(m)@.len() ==> x + rw <= (#[trigger] old(m)@[j])@.len(),
    ensures
        final(m)@.len() == old(m)@.len(),
        forall|j: int|
            0 <= j < old(m)@.len() ==> (#[trigger] final(m)@[j])@.len() == old(m)@[j]@.len(),
        forall|xx: int, yy: int|
            x <= xx < x + rw && y <= yy < y + rh ==> #[trigger] cell(final(m)@, xx, yy)
                == MapComponent::Room,
        forall|xx: int, yy: int|
            0 <= yy < old(m)@.len() && 0 <= xx < old(m)@[yy]@.len() && !(x <= xx < x + rw && y
                <= yy < y + rh) ==> #[trigger] cell(final(m)@, xx, yy) == cell(old(m)@, xx, yy),
{
    let mut j: usize = y;
    while j < y + rh
        invariant
            y <= j <= y + rh,
            x + rw <= usize::MAX,
            y + rh <= usize::MAX,
            y + rh <= old(m)@.len(),
            forall|jj: int| 0 <= jj < old(m)@.len() ==> x + rw <= (#[trigger] old(m)@[jj])@.len(),
            m@.len() == old(m)@.len(),
            forall|jj: int|
                0 <= jj < old(m)@.len() ==> (#[trigger] m@[jj])@.len() == old(m)@[jj]@.len(),
            forall|xx: int, yy: int|
                x <= xx < x + rw && y <= yy < j ==> #[trigger] cell(m@, xx, yy)
                    == MapComponent::Room,
            forall|xx: int, yy: int|
                0 <= yy < old(m)@.len() && 0 <= xx < old(m)@[yy]@.len() && !(x <= xx < x + rw && y
                    <= yy < j) ==> #[trigger] cell(m@, xx, yy) == cell(old(m)@, xx, yy),
        decreases y + rh - j,
    {
        let mut i: usize = x;
        while i < x + rw
            invariant
                y <= j < y + rh,
                x <= i <= x + rw,
                x + rw <= usize::MAX,
                y + rh <= usize::MAX,
                y + rh <= old(m)@.len(),
                forall|jj: int|
                    0 <= jj < old(m)@.len() ==> x + rw <= (#[trigger] old(m)@[jj])@.len(),
                m@.len() == old(m)@.len(),
                forall|jj: int|
                    0 <= jj < old(m)@.len() ==> (#[trigger] m@[jj])@.len() == old(m)@[jj]@.len(),
                forall|xx: int, yy: int|
                    x <= xx < x + rw && y <= yy < j ==> #[trigger] cell(m@, xx, yy)
                        == MapComponent::Room,
                forall|xx: int| x <= xx < i ==> #[trigger] cell(m@, xx, j as int)
                    == MapComponent::Room,
                forall|xx: int, yy: int|
                    0 <= yy < old(m)@.len() && 0 <= xx < old(m)@[yy]@.len() && !(x <= xx < x + rw
                        && y <= yy < j) && !(x <= xx < i && yy == j) ==> #[trigger] cell(
                        m@,
                        xx,
                        yy,
                    ) == cell(old(m)@, xx, yy),
            decreases x + rw - i,
        {
            set_cell(m, i, j, MapComponent::Room);
            i = i + 1;
        }
        j = j + 1;
    }
}

impl RandomMap {
    /// Stamp a random count of rooms onto the carved maze. Each room gets a
    /// bounded number of placement attempts with freshly drawn odd extents
    /// and an odd-aligned position; an attempt that would cover an existing
    /// room cell, or whose extents do not fit the grid, is abandoned.
    ///
    /// Cells only ever change from their old value to `Room`, and the ghost
    /// room list records exactly the placed rectangles: at most one per
    /// drawn room (never more than nine), and at least one on any grid of
    /// 18 or more cells a side, where the first attempt's extents always
    /// fit and the scan of a room-free grid cannot fail.
    pub fn build_room<R: RandomSource>(&mut self, rng: &mut R)
        requires
            old(self).shape_wf(),
            border_walled(old(self).map@, old(self).spec_width(), old(self).spec_height()),
            room_free(old(self).map@, old(self).spec_width(), old(self).spec_height()),
            old(self).rooms@ == Seq::<RoomRect>::empty(),
        ensures
            final(self).shape_wf(),
            final(self).size == old(self).size,
            final(self).draw_map == old(self).draw_map,
            border_walled(final(self).map@, old(self).spec_width(), old(self).spec_height()),
            rooms_wf(final(self).rooms@, old(self).spec_width(), old(self).spec_height()),
            rooms_disjoint(final(self).rooms@),
            final(self).rooms@.len() <= 9,
            old(self).size.width >= 18 && old(self).size.height >= 18 ==> final(
                self
            ).rooms@.len() >= 1,
            rooms_cover(
                final(self).map@,
                old(self).spec_width(),
                old(self).spec_height(),
                final(self).rooms@,
            ),
            forall|x: int, y: int|
                in_grid(old(self).spec_width(), old(self).spec_height(), x, y) ==> #[trigger] cell(
                    final(self).map@,
                    x,
                    y,
                ) == cell(old(self).map@, x, y) || cell(final(self).map@, x, y)
                    == MapComponent::Room,
    {
        let ghost wi = self.spec_width();
        let ghost hi = self.spec_height();
        let ghost m0 = self.map@;
        let width = self.size.width;
        let height = self.size.height;

        let count_room = rng.next_in_range(5, 10);
        let mut n: isize = 0;
        while n < count_room
            invariant
                5 <= count_room <= 9,
                0 <= n <= count_room,
                self.rooms@.len() <= n,
                wi >= 18 && hi >= 18 && n >= 1 ==> self.rooms@.len() >= 1,
                self.size == old(self).size,
                self.draw_map == old(self).draw_map,
                self.shape_wf(),
                wi == old(self).spec_width(),
                hi == old(self).spec_height(),
                m0 == old(self).map@,
                width == self.size.width,
                height == self.size.height,
                border_walled(self.map@, wi, hi),
                rooms_wf(self.rooms@, wi, hi),
                rooms_disjoint(self.rooms@),
                rooms_cover(self.map@, wi, hi, self.rooms@),
                forall|x: int, y: int|
                    in_grid(wi, hi, x, y) ==> #[trigger] cell(self.map@, x, y) == cell(m0, x, y)
                        || cell(self.map@, x, y) == MapComponent::Room,
            decreases count_room - n,
        {
            let retry = rng.next_in_range(5, 7);
            let mut attempt: isize = 0;
            let mut placed = false;
            let ghost rn = self.rooms@.len();
            while attempt < retry && !placed
                invariant
                    5 <= retry <= 6,
                    0 <= attempt <= retry,
                    rn <= self.rooms@.len() <= rn + 1,
                    !placed ==> self.rooms@.len() == rn,
                    placed ==> self.rooms@.len() == rn + 1,
                    wi >= 18 && hi >= 18 && attempt >= 1 && rn == 0 ==> self.rooms@.len() >= 1,
                    self.size == old(self).size,
                    self.draw_map == old(self).draw_map,
                    self.shape_wf(),
                    wi == old(self).spec_width(),
                    hi == old(self).spec_height(),
                    m0 == old(self).map@,
                    width == self.size.width,
                    height == self.size.height,
                    border_walled(self.map@, wi, hi),
                    rooms_wf(self.rooms@, wi, hi),
                    rooms_disjoint(self.rooms@),
                    rooms_cover(self.map@, wi, hi, self.rooms@),
                    forall|x: int, y: int|
                        in_grid(wi, hi, x, y) ==> #[trigger] cell(self.map@, x, y) == cell(
                            m0,
                            x,
                            y,
                        ) || cell(self.map@, x, y) == MapComponent::Room,
                decreases retry - attempt,
            {
                attempt = attempt + 1;

                let rw = rng.next_in_range(8, 16) as usize / 2 * 2 + 1;
                let rh = rng.next_in_range(8, 16) as usize / 2 * 2 + 1;
                if width >= rw + 3 && height >= rh + 3 {
                    let rx = rng.next_in_range(1, (width - rw - 1) as isize) as usize / 2 * 2 + 1;
                    let ry = rng.next_in_range(1, (height - rh - 1) as isize) as usize / 2 * 2 + 1;

                    let occupied = rect_has_room(&self.map, rx, ry, rw, rh);
                    if !occupied {
                        let ghost mprev = self.map@;
                        let ghost rooms0 = self.rooms@;
                        let ghost rr = RoomRect {
                            x: rx as int,
                            y: ry as int,
                            w: rw as int,
                            h: rh as int,
                        };
                        fill_rect(&mut self.map, rx, ry, rw, rh);
                        proof {
                            self.rooms@ = rooms0.push(rr);
                        }
                        placed = true;
                        proof {
                            assert(room_wf(rr, wi, hi));
                            // The fresh rectangle held no room cell, and every
                            // existing room is fully room floor, so the fresh
                            // rectangle is separate from each of them.
                            assert forall|k: int| 0 <= k < rooms0.len() implies rooms_separate(
                                #[trigger] rooms0[k],
                                rr,
                            ) by {
                                if !rooms_separate(rooms0[k], rr) {
                                    lemma_overlap_cell(rooms0[k], rr);
                                    let (cx, cy) = choose|cx: int, cy: int|
                                        room_contains(rooms0[k], cx, cy) && #[trigger] room_contains(
                                            rr,
                                            cx,
                                            cy,
                                        );
                                    assert(cell(mprev, cx, cy) == MapComponent::Room);
                                }
                            };
                            assert forall|i: int, j: int|
                                0 <= i < self.rooms@.len() && 0 <= j < self.rooms@.len() && i
                                    != j implies rooms_separate(
                                #[trigger] self.rooms@[i],
                                #[trigger] self.rooms@[j],
                            ) by {
                                if i < rooms0.len() && j < rooms0.len() {
                                    assert(rooms_separate(rooms0[i], rooms0[j]));
                                } else if i < rooms0.len() {
                                    assert(rooms_separate(rooms0[i], rr));
                                } else {
                                    assert(rooms_separate(rooms0[j], rr));
                                }
                            };
                            assert forall|k: int| 0 <= k < self.rooms@.len() implies room_wf(
                                #[trigger] self.rooms@[k],
                                wi,
                                hi,
                            ) by {
                                if k < rooms0.len() {
                                    assert(self.rooms@[k] == rooms0[k]);
                                }
                            };
                            assert forall|x: int, y: int| in_grid(wi, hi, x, y) implies ((
                            #[trigger] cell(self.map@, x, y)) == MapComponent::Room <==> exists|
                                k: int,
                            |
                                0 <= k < self.rooms@.len() && #[trigger] room_contains(
                                    self.rooms@[k],
                                    x,
                                    y,
                                )) by {
                                if room_contains(rr, x, y) {
                                    assert(cell(self.map@, x, y) == MapComponent::Room);
                                    assert(room_contains(self.rooms@[rooms0.len() as int], x, y));
                                } else {
                                    assert(cell(self.map@, x, y) == cell(mprev, x, y));
                                    if cell(self.map@, x, y) == MapComponent::Room {
                                        let k = choose|k: int|
                                            0 <= k < rooms0.len() && #[trigger] room_contains(
                                                rooms0[k],
                                                x,
                                                y,
                                            );
                                        assert(room_contains(self.rooms@[k], x, y));
                                    } else {
                                        if exists|k: int|
                                            0 <= k < self.rooms@.len() && #[trigger] room_contains(
                                                self.rooms@[k],
                                                x,
                                                y,
                                            ) {
                                            let k = choose|k: int|
                                                0 <= k < self.rooms@.len()
                                                    && #[trigger] room_contains(
                                                    self.rooms@[k],
                                                    x,
                                                    y,
                                                );
                                            assert(k < rooms0.len());
                                            assert(room_contains(rooms0[k], x, y));
                                            assert(cell(mprev, x, y) == MapComponent::Room);
                                        }
                                    }
                                }
                            };
                        }
                    }
                    proof {
                        if self.rooms@.len() == 0 && !placed {
                            // The scan reported a room cell, yet the room
                            // list is empty and covers the room cells
                            // exactly: impossible.
                            let (cx, cy) = choose|cx: int, cy: int|
                                rx <= cx < rx + rw && ry <= cy < ry + rh && #[trigger] cell(
                                    self.map@,
                                    cx,
                                    cy,
                                ) == MapComponent::Room;
                            assert(in_grid(wi, hi, cx, cy));
                            assert(false);
                        }
                    }
                }
            }
            n = n + 1;
        }
    }
}

} // verus!
