//! Tests of the map generator: border, connectivity, dead ends, rooms,
//! spawn coordinates, determinism, and the boundary sizes.

use wani_rogue::map_component::MapComponent;
use wani_rogue::random_map::RandomMap;
use wani_rogue::random_source::Lcg;
use wani_rogue::random_source::RandomSource;
use wani_rogue::vector2::Vec2;

/// A stub source that always answers with the range's lower bound.
struct LoRng;

impl RandomSource for LoRng {
    fn next_in_range(&mut self, lo: isize, _hi: isize) -> isize {
        lo
    }
}

fn dims(m: &RandomMap) -> (usize, usize) {
    (m.size.width, m.size.height)
}

fn comp_at(m: &RandomMap, x: usize, y: usize) -> MapComponent {
    m.get_component(Vec2::new(x as isize, y as isize)).unwrap()
}

fn is_open(c: MapComponent) -> bool {
    c != MapComponent::Wall
}

/// Flood fill over open cells from `start`, returning how many open cells
/// were reached.
fn flood_count(m: &RandomMap, start: (usize, usize)) -> usize {
    let (w, h) = dims(m);
    let mut seen = vec![vec![false; w]; h];
    let mut stack = vec![start];
    seen[start.1][start.0] = true;
    let mut reached = 0;
    while let Some((x, y)) = stack.pop() {
        reached += 1;
        let neighbors = [(x, y.wrapping_sub(1)), (x, y + 1), (x.wrapping_sub(1), y), (x + 1, y)];
        for &(nx, ny) in neighbors.iter() {
            if nx < w && ny < h && !seen[ny][nx] && is_open(comp_at(m, nx, ny)) {
                seen[ny][nx] = true;
                stack.push((nx, ny));
            }
        }
    }
    reached
}

fn open_cells(m: &RandomMap) -> Vec<(usize, usize)> {
    let (w, h) = dims(m);
    let mut cells = Vec::new();
    for y in 0..h {
        for x in 0..w {
            if is_open(comp_at(m, x, y)) {
                cells.push((x, y));
            }
        }
    }
    cells
}

fn open_neighbor_count(m: &RandomMap, x: usize, y: usize) -> usize {
    let mut n = 0;
    if is_open(comp_at(m, x, y - 1)) {
        n += 1;
    }
    if is_open(comp_at(m, x, y + 1)) {
        n += 1;
    }
    if is_open(comp_at(m, x - 1, y)) {
        n += 1;
    }
    if is_open(comp_at(m, x + 1, y)) {
        n += 1;
    }
    n
}

#[test]
fn it_works() {
    assert_eq!(2 + 2, 4);
}

#[test]
fn corrected_sizes_are_odd_and_at_least_five() {
    let mut rng = Lcg::new(7);
    let m = RandomMap::new(80, 50, &mut rng);
    assert_eq!(dims(&m), (83, 53));

    let mut rng = Lcg::new(7);
    let m = RandomMap::new(0, 0, &mut rng);
    assert_eq!(dims(&m), (5, 5));

    let mut rng = Lcg::new(7);
    let m = RandomMap::new(7, 7, &mut rng);
    assert_eq!(dims(&m), (9, 9));
}

#[test]
fn border_cells_are_all_wall() {
    let mut rng = Lcg::new(1);
    let m = RandomMap::new(80, 50, &mut rng);
    let (w, h) = dims(&m);
    for x in 0..w {
        assert_eq!(comp_at(&m, x, 0), MapComponent::Wall);
        assert_eq!(comp_at(&m, x, h - 1), MapComponent::Wall);
    }
    for y in 0..h {
        assert_eq!(comp_at(&m, 0, y), MapComponent::Wall);
        assert_eq!(comp_at(&m, w - 1, y), MapComponent::Wall);
    }
}

#[test]
fn open_cells_are_connected() {
    for seed in [1u64, 2, 3, 42, 1234] {
        let mut rng = Lcg::new(seed);
        let m = RandomMap::new(80, 50, &mut rng);
        let cells = open_cells(&m);
        assert!(!cells.is_empty());
        assert_eq!(flood_count(&m, cells[0]), cells.len());
    }
}

#[test]
fn no_dead_end_remains_and_pruning_is_idempotent() {
    for seed in [1u64, 5, 99] {
        let mut rng = Lcg::new(seed);
        let mut m = RandomMap::new(80, 50, &mut rng);
        let (w, h) = dims(&m);
        for y in 1..h - 1 {
            for x in 1..w - 1 {
                if is_open(comp_at(&m, x, y)) {
                    assert_ne!(open_neighbor_count(&m, x, y), 1, "dead end at ({}, {})", x, y);
                }
            }
        }
        let before = m.map.clone();
        m.remove_deadend();
        assert_eq!(before, m.map);
    }
}

#[test]
fn room_cells_form_disjoint_odd_rectangles() {
    let mut rng = Lcg::new(11);
    let m = RandomMap::new(80, 50, &mut rng);
    let (w, h) = dims(&m);

    // Because placed rooms are odd-aligned with odd extents, two rooms can
    // never touch orthogonally, so each connected blob of room cells is
    // exactly one placed rectangle.
    let mut seen = vec![vec![false; w]; h];
    let mut found_any = false;
    for y in 0..h {
        for x in 0..w {
            if comp_at(&m, x, y) == MapComponent::Room && !seen[y][x] {
                found_any = true;
                // Gather the component.
                let mut stack = vec![(x, y)];
                seen[y][x] = true;
                let mut blob = Vec::new();
                while let Some((cx, cy)) = stack.pop() {
                    blob.push((cx, cy));
                    let neighbors =
                        [(cx, cy - 1), (cx, cy + 1), (cx - 1, cy), (cx + 1, cy)];
                    for &(nx, ny) in neighbors.iter() {
                        if nx < w && ny < h && !seen[ny][nx] && comp_at(&m, nx, ny)
                            == MapComponent::Room
                        {
                            seen[ny][nx] = true;
                            stack.push((nx, ny));
                        }
                    }
                }
                // The component must fill its bounding box, with odd-valued
                // corner and extents in the drawn ranges, clear of the rim.
                let x0 = blob.iter().map(|p| p.0).min().unwrap();
                let x1 = blob.iter().map(|p| p.0).max().unwrap();
                let y0 = blob.iter().map(|p| p.1).min().unwrap();
                let y1 = blob.iter().map(|p| p.1).max().unwrap();
                let rw = x1 - x0 + 1;
                let rh = y1 - y0 + 1;
                assert_eq!(blob.len(), rw * rh);
                assert_eq!(x0 % 2, 1);
                assert_eq!(y0 % 2, 1);
                assert!(rw % 2 == 1 && (9..=15).contains(&rw));
                assert!(rh % 2 == 1 && (9..=15).contains(&rh));
                assert!(x0 >= 1 && x1 <= w - 2 && y0 >= 1 && y1 <= h - 2);
            }
        }
    }
    assert!(found_any);
}

#[test]
fn no_lattice_post_stays_corridor() {
    // The carver walls every seed post; rooms may later overwrite some
    // with room floor, so a post is wall or room floor, never corridor.
    for seed in [3u64, 8] {
        let mut rng = Lcg::new(seed);
        let m = RandomMap::new(80, 50, &mut rng);
        let (w, h) = dims(&m);
        let mut x = 2;
        while x <= w - 3 {
            let mut y = 2;
            while y <= h - 3 {
                assert_ne!(comp_at(&m, x, y), MapComponent::Corridor, "post ({}, {})", x, y);
                y += 2;
            }
            x += 2;
        }
    }
}

#[test]
fn room_count_stays_in_the_drawn_range() {
    // Components of room cells are exactly the placed rooms (they never
    // touch), so counting them counts the rooms.
    let mut rng = Lcg::new(11);
    let m = RandomMap::new(80, 50, &mut rng);
    let (w, h) = dims(&m);
    let mut seen = vec![vec![false; w]; h];
    let mut components = 0;
    for y in 0..h {
        for x in 0..w {
            if comp_at(&m, x, y) == MapComponent::Room && !seen[y][x] {
                components += 1;
                let mut stack = vec![(x, y)];
                seen[y][x] = true;
                while let Some((cx, cy)) = stack.pop() {
                    let neighbors =
                        [(cx, cy - 1), (cx, cy + 1), (cx - 1, cy), (cx + 1, cy)];
                    for &(nx, ny) in neighbors.iter() {
                        if nx < w && ny < h && !seen[ny][nx] && comp_at(&m, nx, ny)
                            == MapComponent::Room
                        {
                            seen[ny][nx] = true;
                            stack.push((nx, ny));
                        }
                    }
                }
            }
        }
    }
    assert!((1..=9).contains(&components));
}

#[test]
fn respawnable_coord_lands_on_room_floor() {
    let mut rng = Lcg::new(21);
    let m = RandomMap::new(80, 50, &mut rng);
    let v = m.respawnable_coord(&mut rng).expect("a standard map places rooms");
    assert_eq!(v.x % 32, 0);
    assert_eq!(v.y % 32, 0);
    let cx = (v.x / 32) as usize;
    let cy = (v.y / 32) as usize;
    assert_eq!(comp_at(&m, cx, cy), MapComponent::Room);
}

#[test]
fn respawnable_coord_reports_roomless_maps() {
    // On the minimum size nothing can hold a room, so the lookup must
    // report the absence instead of spinning forever.
    let mut rng = LoRng;
    let m = RandomMap::new(0, 0, &mut rng);
    assert!(m.respawnable_coord(&mut rng).is_none());
}

#[test]
fn generation_is_deterministic_for_a_fixed_source() {
    let mut a_rng = Lcg::new(77);
    let a = RandomMap::new(80, 50, &mut a_rng);
    let mut b_rng = Lcg::new(77);
    let b = RandomMap::new(80, 50, &mut b_rng);
    assert_eq!(a.map, b.map);
    assert_eq!(a.size.width, b.size.width);
    assert_eq!(a.size.height, b.size.height);
    let (w, h) = dims(&a);
    for y in 0..h {
        for x in 0..w {
            let p = Vec2::new(x as isize, y as isize);
            assert_eq!(a.render_index_at(p), b.render_index_at(p));
        }
    }
}

#[test]
fn lower_bound_source_pins_the_same_maze_on_repeated_calls() {
    let a = RandomMap::new(7, 7, &mut LoRng);
    let b = RandomMap::new(7, 7, &mut LoRng);
    assert_eq!(dims(&a), (9, 9));
    assert_eq!(a.map, b.map);
}

#[test]
fn lower_bound_source_carves_the_golden_minimum_grid() {
    // With every draw pinned to its lower bound, the 5 by 5 map is fully
    // determined: the single post at (2, 2) grows a wall straight up, and
    // the pruner then consumes the ring of corridor around it except the
    // cell at (3, 1), which ends up sealed off with no open neighbor.
    let m = RandomMap::new(0, 0, &mut LoRng);
    assert_eq!(dims(&m), (5, 5));
    for y in 0..5 {
        for x in 0..5 {
            let expected = if (x, y) == (3, 1) {
                MapComponent::Corridor
            } else {
                MapComponent::Wall
            };
            assert_eq!(comp_at(&m, x, y), expected, "cell ({}, {})", x, y);
        }
    }
}

#[test]
fn render_indices_follow_the_pattern_table() {
    let m = RandomMap::new(0, 0, &mut LoRng);
    // The lone open cell keeps the plain tile.
    assert_eq!(m.render_index_at(Vec2::new(3, 1)), Some(23));
    // A wall cell surrounded by walls on all eight sides.
    assert_eq!(m.render_index_at(Vec2::new(0, 0)), Some(9));
    // All four cross neighbors walled, down-right diagonal open.
    assert_eq!(m.render_index_at(Vec2::new(2, 0)), Some(51));
    // All four cross neighbors walled, down-left diagonal open.
    assert_eq!(m.render_index_at(Vec2::new(4, 0)), Some(50));
    // Out of bounds has no sprite.
    assert_eq!(m.render_index_at(Vec2::new(5, 0)), None);
    assert_eq!(m.render_index_at(Vec2::new(-1, 0)), None);
}

#[test]
fn get_component_is_bounds_checked() {
    let m = RandomMap::new(0, 0, &mut LoRng);
    assert_eq!(m.get_component(Vec2::new(0, 0)), Some(MapComponent::Wall));
    assert_eq!(m.get_component(Vec2::new(4, 4)), Some(MapComponent::Wall));
    assert_eq!(m.get_component(Vec2::new(5, 0)), None);
    assert_eq!(m.get_component(Vec2::new(0, 5)), None);
    assert_eq!(m.get_component(Vec2::new(-1, 2)), None);
}

#[test]
fn lcg_draws_stay_in_range() {
    let mut rng = Lcg::new(123);
    for _ in 0..1000 {
        let v = rng.next_in_range(-5, 17);
        assert!((-5..17).contains(&v));
    }
    let mut rng = Lcg::new(0);
    for _ in 0..100 {
        let v = rng.next_in_range(3, 4);
        assert_eq!(v, 3);
    }
}
