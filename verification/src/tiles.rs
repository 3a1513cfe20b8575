//! The tile resolution phase: map each wall cell's eight-cell neighborhood
//! to a sprite index, so a renderer can draw seamless wall art.
//!
//! A cell's neighborhood is encoded as an eight-bit mask, one bit per
//! compass direction, set when that neighbor is a wall or lies outside the
//! grid. The mask is classified first by how many of the four orthogonal
//! neighbors are walls, then by which diagonals are; neighborhoods no
//! pattern matches keep the plain tile.

use vstd::prelude::*;

use crate::map_component::MapComponent;
use crate::random_map::PLAIN_TILE;
use crate::random_map::RandomMap;
use crate::random_map::cell;
use crate::random_map::in_grid;
use crate::random_map::make_grid;
use crate::random_map::set_cell;
use crate::vector2::Vec2;

verus! {

/// Whether `(x, y)` is a wall cell or lies outside the grid; off-grid
/// counts as wall so the border renders as solid.
pub open spec fn wall_or_oob(m: Seq<Vec<MapComponent>>, w: int, h: int, x: int, y: int) -> bool {
    !in_grid(w, h, x, y) || cell(m, x, y) == MapComponent::Wall
}

/// The eight-bit neighborhood mask of `(x, y)`: one bit per compass
/// direction, from 0x80 for up-left clockwise through 0x01 for down-right.
pub open spec fn mask_at(m: Seq<Vec<MapComponent>>, w: int, h: int, x: int, y: int) -> u8 {
    (if wall_or_oob(m, w, h, x - 1, y - 1) {
        0x80u8
    } else {
        0u8
    }) | (if wall_or_oob(m, w, h, x, y - 1) {
        0x40u8
    } else {
        0u8
    }) | (if wall_or_oob(m, w, h, x + 1, y - 1) {
        0x20u8
    } else {
        0u8
    }) | (if wall_or_oob(m, w, h, x - 1, y) {
        0x10u8
    } else {
        0u8
    }) | (if wall_or_oob(m, w, h, x + 1, y) {
        0x08u8
    } else {
        0u8
    }) | (if wall_or_oob(m, w, h, x - 1, y + 1) {
        0x04u8
    } else {
        0u8
    }) | (if wall_or_oob(m, w, h, x, y + 1) {
        0x02u8
    } else {
        0u8
    }) | (if wall_or_oob(m, w, h, x + 1, y + 1) {
        0x01u8
    } else {
        0u8
    })
}

/// Whether every bit of `pat` is set in `flag`.
pub open spec fn has_bits(flag: u8, pat: u8) -> bool {
    flag & pat == pat
}

/// How many orthogonal (cross) neighbor bits are set in `flag`.
pub open spec fn cross_count(flag: u8) -> int {
    ((flag & 0x40) >> 6) + ((flag & 0x10) >> 4) + ((flag & 0x08) >> 3) + ((flag & 0x02) >> 1)
}

/// How many diagonal (slant) neighbor bits are set in `flag`.
pub open spec fn slant_count(flag: u8) -> int {
    ((flag & 0x80) >> 7) + ((flag & 0x20) >> 5) + ((flag & 0x04) >> 2) + (flag & 0x01)
}

/// The sprite index for a wall cell with neighborhood mask `flag`: the
/// explicit pattern table, classified by cross count, then by diagonals.
pub open spec fn tile_index(flag: u8) -> int {
    let cross = cross_count(flag);
    if cross == 0 {
        22
    } else if cross == 1 {
        if has_bits(flag, 0x40) {
            20
        } else if has_bits(flag, 0x10) {
            13
        } else if has_bits(flag, 0x08) {
            11
        } else if has_bits(flag, 0x02) {
            4
        } else {
            PLAIN_TILE as int
        }
    } else if cross == 2 {
        if has_bits(flag, 0x42) {
            6
        } else if has_bits(flag, 0x18) {
            7
        } else if has_bits(flag, 0x50) {
            if has_bits(flag, 0x80) {
                18
            } else {
                21
            }
        } else if has_bits(flag, 0x48) {
            if has_bits(flag, 0x20) {
                16
            } else {
                19
            }
        } else if has_bits(flag, 0x12) {
            if has_bits(flag, 0x04) {
                2
            } else {
                5
            }
        } else if has_bits(flag, 0x0a) {
            if has_bits(flag, 0x01) {
                0
            } else {
                3
            }
        } else {
            PLAIN_TILE as int
        }
    } else if cross == 3 {
        if has_bits(flag, 0x58) {
            if has_bits(flag, 0xa0) {
                17
            } else if has_bits(flag, 0x80) {
                36
            } else if has_bits(flag, 0x20) {
                34
            } else {
                32
            }
        } else if has_bits(flag, 0x4a) {
            if has_bits(flag, 0x21) {
                8
            } else if has_bits(flag, 0x20) {
                28
            } else if has_bits(flag, 0x01) {
                26
            } else {
                24
            }
        } else if has_bits(flag, 0x1a) {
            if has_bits(flag, 0x05) {
                1
            } else if has_bits(flag, 0x01) {
                29
            } else if has_bits(flag, 0x04) {
                27
            } else {
                25
            }
        } else if has_bits(flag, 0x52) {
            if has_bits(flag, 0x84) {
                10
            } else if has_bits(flag, 0x04) {
                37
            } else if has_bits(flag, 0x80) {
                35
            } else {
                33
            }
        } else {
            PLAIN_TILE as int
        }
    } else if cross == 4 {
        let slant = slant_count(flag);
        if slant == 0 {
            12
        } else if slant == 1 {
            if has_bits(flag, 0x80) {
                39
            } else if has_bits(flag, 0x20) {
                38
            } else if has_bits(flag, 0x01) {
                30
            } else {
                PLAIN_TILE as int
            }
        } else if slant == 2 {
            if has_bits(flag, 0x81) {
                15
            } else if has_bits(flag, 0x24) {
                14
            } else if has_bits(flag, 0xa0) {
                49
            } else if has_bits(flag, 0x21) {
                48
            } else if has_bits(flag, 0x05) {
                40
            } else if has_bits(flag, 0x84) {
                41
            } else {
                PLAIN_TILE as int
            }
        } else if slant == 3 {
            if !has_bits(flag, 0x80) {
                42
            } else if !has_bits(flag, 0x20) {
                43
            } else if !has_bits(flag, 0x01) {
                51
            } else {
                50
            }
        } else {
            9
        }
    } else {
        PLAIN_TILE as int
    }
}

/// The sprite index every cell of the finished render grid must hold.
pub open spec fn draw_cell_spec(m: Seq<Vec<MapComponent>>, w: int, h: int, x: int, y: int) -> int {
    if cell(m, x, y) == MapComponent::Wall {
        tile_index(mask_at(m, w, h, x, y))
    } else {
        PLAIN_TILE as int
    }
}

/// Whether the cell at `coord` is a wall, counting out-of-bounds as wall.
fn is_wall_at(rm: &RandomMap, coord: Vec2<isize>) -> (b: bool)
    requires
        rm.shape_wf(),
    ensures
        b == wall_or_oob(rm.map@, rm.spec_width(), rm.spec_height(), coord.x as int, coord.y as int),
{
    match rm.get_component(coord) {
        Some(comp) => match comp {
            MapComponent::Wall => true,
            _ => false,
        },
        None => true,
    }
}

/// Whether every bit of `flag` is set in `chk`.
fn check_flag(chk: u8, flag: u8) -> (r: bool)
    ensures
        r == has_bits(chk, flag),
{
    chk & flag == flag
}

impl RandomMap {
    /// Resolve the render grid: give every wall cell the sprite index its
    /// neighborhood mask selects, and every other cell the plain tile.
    pub fn build_draw_map(&mut self)
        requires
            old(self).shape_wf(),
        ensures
            final(self).shape_wf(),
            final(self).size == old(self).size,
            final(self).map == old(self).map,
            final(self).rooms == old(self).rooms,
            forall|x: int, y: int|
                in_grid(old(self).spec_width(), old(self).spec_height(), x, y) ==> #[trigger] cell(
                    final(self).draw_map@,
                    x,
                    y,
                ) as int == draw_cell_spec(
                    old(self).map@,
                    old(self).spec_width(),
                    old(self).spec_height(),
                    x,
                    y,
                ),
    {
        let w = self.size.width;
        let h = self.size.height;
        let ghost wi = self.spec_width();
        let ghost hi = self.spec_height();
        let ghost m1 = self.map@;

        let mut wall_flag: Vec<Vec<u8>> = make_grid(0u8, w, h);

        // First pass: the neighborhood mask of every cell.
        let mut i: usize = 0;
        while i < w
            invariant
                self == old(self),
                old(self).shape_wf(),
                wi == old(self).spec_width(),
                hi == old(self).spec_height(),
                m1 == old(self).map@,
                w == self.size.width,
                h == self.size.height,
                i <= w,
                wall_flag@.len() == hi,
                forall|jj: int| 0 <= jj < hi ==> (#[trigger] wall_flag@[jj])@.len() == wi,
                forall|x: int, y: int|
                    in_grid(wi, hi, x, y) && x < i ==> #[trigger] cell(wall_flag@, x, y) == mask_at(
                        m1,
                        wi,
                        hi,
                        x,
                        y,
                    ),
            decreases w - i,
        {
            let mut j: usize = 0;
            while j < h
                invariant
                    self == old(self),
                    old(self).shape_wf(),
                    wi == old(self).spec_width(),
                    hi == old(self).spec_height(),
                    m1 == old(self).map@,
                    w == self.size.width,
                    h == self.size.height,
                    i < w,
                    j <= h,
                    wall_flag@.len() == hi,
                    forall|jj: int| 0 <= jj < hi ==> (#[trigger] wall_flag@[jj])@.len() == wi,
                    forall|x: int, y: int|
                        in_grid(wi, hi, x, y) && (x < i || (x == i && y < j)) ==> #[trigger] cell(
                            wall_flag@,
                            x,
                            y,
                        ) == mask_at(m1, wi, hi, x, y),
                decreases h - j,
            {
                let target = Vec2::new(i as isize, j as isize);
                let mut flag: u8 = if is_wall_at(self, Vec2::new(target.x - 1, target.y - 1)) {
                    0x80u8
                } else {
                    0u8
                };
                flag = flag | (if is_wall_at(self, Vec2::new(target.x, target.y - 1)) {
                    0x40u8
                } else {
                    0u8
                });
                flag = flag | (if is_wall_at(self, Vec2::new(target.x + 1, target.y - 1)) {
                    0x20u8
                } else {
                    0u8
                });
                flag = flag | (if is_wall_at(self, Vec2::new(target.x - 1, target.y)) {
                    0x10u8
                } else {
                    0u8
                });
                flag = flag | (if is_wall_at(self, Vec2::new(target.x + 1, target.y)) {
                    0x08u8
                } else {
                    0u8
                });
                flag = flag | (if is_wall_at(self, Vec2::new(target.x - 1, target.y + 1)) {
                    0x04u8
                } else {
                    0u8
                });
                flag = flag | (if is_wall_at(self, Vec2::new(target.x, target.y + 1)) {
                    0x02u8
                } else {
                    0u8
                });
                flag = flag | (if is_wall_at(self, Vec2::new(target.x + 1, target.y + 1)) {
                    0x01u8
                } else {
                    0u8
                });
                proof {
                    assert(flag == mask_at(m1, wi, hi, i as int, j as int));
                }
                let ghost wf0 = wall_flag@;
                set_cell(&mut wall_flag, i, j, flag);
                proof {
                    assert forall|x: int, y: int|
                        in_grid(wi, hi, x, y) && (x < i || (x == i && y < j + 1)) implies #[trigger] cell(
                        wall_flag@,
                        x,
                        y,
                    ) == mask_at(m1, wi, hi, x, y) by {
                        if !(x == i && y == j) {
                            assert(cell(wall_flag@, x, y) == cell(wf0, x, y));
                        }
                    };
                }
                j = j + 1;
            }
            i = i + 1;
        }

        // Second pass: classify each wall cell's mask.
        let mut i: usize = 0;
        while i < w
            invariant
                self.size == old(self).size,
                self.map == old(self).map,
                self.rooms == old(self).rooms,
                self.shape_wf(),
                old(self).shape_wf(),
                wi == old(self).spec_width(),
                hi == old(self).spec_height(),
                m1 == old(self).map@,
                w == self.size.width,
                h == self.size.height,
                i <= w,
                wall_flag@.len() == hi,
                forall|jj: int| 0 <= jj < hi ==> (#[trigger] wall_flag@[jj])@.len() == wi,
                forall|x: int, y: int|
                    in_grid(wi, hi, x, y) ==> #[trigger] cell(wall_flag@, x, y) == mask_at(
                        m1,
                        wi,
                        hi,
                        x,
                        y,
                    ),
                forall|x: int, y: int|
                    in_grid(wi, hi, x, y) && x < i ==> #[trigger] cell(self.draw_map@, x, y) as int
                        == draw_cell_spec(m1, wi, hi, x, y),
            decreases w - i,
        {
            let mut j: usize = 0;
            while j < h
                invariant
                    self.size == old(self).size,
                    self.map == old(self).map,
                    self.rooms == old(self).rooms,
                    self.shape_wf(),
                    old(self).shape_wf(),
                    wi == old(self).spec_width(),
                    hi == old(self).spec_height(),
                    m1 == old(self).map@,
                    w == self.size.width,
                    h == self.size.height,
                    i < w,
                    j <= h,
                    wall_flag@.len() == hi,
                    forall|jj: int| 0 <= jj < hi ==> (#[trigger] wall_flag@[jj])@.len() == wi,
                    forall|x: int, y: int|
                        in_grid(wi, hi, x, y) ==> #[trigger] cell(wall_flag@, x, y) == mask_at(
                            m1,
                            wi,
                            hi,
                            x,
                            y,
                        ),
                    forall|x: int, y: int|
                        in_grid(wi, hi, x, y) && x < i ==> #[trigger] cell(
                            self.draw_map@,
                            x,
                            y,
                        ) as int == draw_cell_spec(m1, wi, hi, x, y),
                    forall|y: int|
                        0 <= y < j ==> #[trigger] cell(self.draw_map@, i as int, y) as int
                            == draw_cell_spec(m1, wi, hi, i as int, y),
                decreases h - j,
            {
                let comp = self.map[j][i];
                proof {
                    assert(comp == cell(m1, i as int, j as int));
                }
                let idx: usize = match comp {
                    MapComponent::Wall => {
                        let flag = wall_flag[j][i];
                        proof {
                            assert(flag == cell(wall_flag@, i as int, j as int));
                            assert((flag & 0x40) >> 6 <= 1 && (flag & 0x10) >> 4 <= 1 && (flag
                                & 0x08) >> 3 <= 1 && (flag & 0x02) >> 1 <= 1 && (flag & 0x80) >> 7
                                <= 1 && (flag & 0x20) >> 5 <= 1 && (flag & 0x04) >> 2 <= 1 && (flag
                                & 0x01) <= 1) by (bit_vector);
                        }

                        let mut cross_wall_count: u8 = 0;
                        cross_wall_count = cross_wall_count + ((flag & 0x40) >> 6);
                        cross_wall_count = cross_wall_count + ((flag & 0x10) >> 4);
                        cross_wall_count = cross_wall_count + ((flag & 0x08) >> 3);
                        cross_wall_count = cross_wall_count + ((flag & 0x02) >> 1);
                        let mut slant_wall_count: u8 = 0;
                        slant_wall_count = slant_wall_count + ((flag & 0x80) >> 7);
                        slant_wall_count = slant_wall_count + ((flag & 0x20) >> 5);
                        slant_wall_count = slant_wall_count + ((flag & 0x04) >> 2);
                        slant_wall_count = slant_wall_count + (flag & 0x01);

                        if cross_wall_count == 0 {
                            22
                        } else if cross_wall_count == 1 {
                            if check_flag(flag, 0x40) {
                                20
                            } else if check_flag(flag, 0x10) {
                                13
                            } else if check_flag(flag, 0x08) {
                                11
                            } else if check_flag(flag, 0x02) {
                                4
                            } else {
                                PLAIN_TILE
                            }
                        } else if cross_wall_count == 2 {
                            if check_flag(flag, 0x42) {
                                6
                            } else if check_flag(flag, 0x18) {
                                7
                            } else if check_flag(flag, 0x50) {
                                if check_flag(flag, 0x80) {
                                    18
                                } else {
                                    21
                                }
                            } else if check_flag(flag, 0x48) {
                                if check_flag(flag, 0x20) {
                                    16
                                } else {
                                    19
                                }
                            } else if check_flag(flag, 0x12) {
                                if check_flag(flag, 0x04) {
                                    2
                                } else {
                                    5
                                }
                            } else if check_flag(flag, 0x0a) {
                                if check_flag(flag, 0x01) {
                                    0
                                } else {
                                    3
                                }
                            } else {
                                PLAIN_TILE
                            }
                        } else if cross_wall_count == 3 {
                            if check_flag(flag, 0x58) {
                                if check_flag(flag, 0xa0) {
                                    17
                                } else if check_flag(flag, 0x80) {
                                    36
                                } else if check_flag(flag, 0x20) {
                                    34
                                } else {
                                    32
                                }
                            } else if check_flag(flag, 0x4a) {
                                if check_flag(flag, 0x21) {
                                    8
                                } else if check_flag(flag, 0x20) {
                                    28
                                } else if check_flag(flag, 0x01) {
                                    26
                                } else {
                                    24
                                }
                            } else if check_flag(flag, 0x1a) {
                                if check_flag(flag, 0x05) {
                                    1
                                } else if check_flag(flag, 0x01) {
                                    29
                                } else if check_flag(flag, 0x04) {
                                    27
                                } else {
                                    25
                                }
                            } else if check_flag(flag, 0x52) {
                                if check_flag(flag, 0x84) {
                                    10
                                } else if check_flag(flag, 0x04) {
                                    37
                                } else if check_flag(flag, 0x80) {
                                    35
                                } else {
                                    33
                                }
                            } else {
                                PLAIN_TILE
                            }
                        } else if cross_wall_count == 4 {
                            if slant_wall_count == 0 {
                                12
                            } else if slant_wall_count == 1 {
                                if check_flag(flag, 0x80) {
                                    39
                                } else if check_flag(flag, 0x20) {
                                    38
                                } else if check_flag(flag, 0x01) {
                                    30
                                } else {
                                    PLAIN_TILE
                                }
                            } else if slant_wall_count == 2 {
                                if check_flag(flag, 0x81) {
                                    15
                                } else if check_flag(flag, 0x24) {
                                    14
                                } else if check_flag(flag, 0xa0) {
                                    49
                                } else if check_flag(flag, 0x21) {
                                    48
                                } else if check_flag(flag, 0x05) {
                                    40
                                } else if check_flag(flag, 0x84) {
                                    41
                                } else {
                                    PLAIN_TILE
                                }
                            } else if slant_wall_count == 3 {
                                if !check_flag(flag, 0x80) {
                                    42
                                } else if !check_flag(flag, 0x20) {
                                    43
                                } else if !check_flag(flag, 0x01) {
                                    51
                                } else {
                                    50
                                }
                            } else {
                                9
                            }
                        } else {
                            PLAIN_TILE
                        }
                    },
                    _ => PLAIN_TILE,
                };
                proof {
                    assert(idx as int == draw_cell_spec(m1, wi, hi, i as int, j as int));
                }
                let ghost d0 = self.draw_map@;
                set_cell(&mut self.draw_map, i, j, idx);
                proof {
                    assert forall|x: int, y: int|
                        in_grid(wi, hi, x, y) && (x < i || (x == i && y < j + 1)) implies
                        #[trigger] cell(self.draw_map@, x, y) as int == draw_cell_spec(
                        m1,
                        wi,
                        hi,
                        x,
                        y,
                    ) by {
                        if !(x == i && y == j) {
                            assert(cell(self.draw_map@, x, y) == cell(d0, x, y));
                        }
                    };
                }
                j = j + 1;
            }
            i = i + 1;
        }
    }
}

} // verus!
