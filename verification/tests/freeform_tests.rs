use generation::freeform::ca::{cellular_automata, count_floors};
use generation::freeform::dla::{dla_generation, is_adjacent_to_occupied, particle_step};
use generation::freeform::{
    brush, center, center_seed, circle_fill_seeds, cross_seeds, diamond, diamond_seeds, fill,
    map_to_gray, random, random_seeds, regular, regular_seeds, resize, square_fill_seeds,
};
use std::cell::Cell;

fn walls(width: usize, height: usize) -> Vec<Vec<bool>> {
    vec![vec![false; width]; height]
}

fn floor_tiles(map: &Vec<Vec<bool>>) -> Vec<(usize, usize)> {
    let mut tiles = Vec::new();
    for (y, row) in map.iter().enumerate() {
        for (x, &t) in row.iter().enumerate() {
            if t {
                tiles.push((x, y));
            }
        }
    }
    tiles
}

#[test]
fn center_is_half_width_and_height() {
    assert_eq!(center(&walls(5, 4)), (2, 2));
    assert_eq!(center(&walls(8, 3)), (4, 1));
    assert_eq!(center(&walls(1, 1)), (0, 0));
}

#[test]
fn center_seed_places_one_seed_in_the_middle() {
    let mut map = walls(3, 3);
    center_seed(&mut map);
    assert_eq!(floor_tiles(&map), vec![(1, 1)]);
    let mut other = walls(4, 4);
    other[0][0] = true;
    center_seed(&mut other);
    assert_eq!(floor_tiles(&other), vec![(0, 0), (2, 2)]);
}

#[test]
fn resize_grows_centred() {
    let mut map = vec![vec![true, false], vec![false, true]];
    resize(&mut map, 4, 4);
    assert_eq!(map.len(), 4);
    assert!(map.iter().all(|r| r.len() == 4));
    assert_eq!(floor_tiles(&map), vec![(1, 1), (2, 2)]);
}

#[test]
fn resize_shrinks_from_the_top_left() {
    let mut map = walls(4, 4);
    map[0][1] = true;
    map[3][3] = true;
    resize(&mut map, 2, 2);
    assert_eq!(map, vec![vec![false, true], vec![false, false]]);
}

#[test]
fn resize_to_the_same_size_keeps_the_map() {
    let mut map = walls(3, 2);
    map[0][0] = true;
    map[1][2] = true;
    let before = map.clone();
    resize(&mut map, 3, 2);
    assert_eq!(map, before);
}

#[test]
fn resize_keeps_the_centre_column_for_odd_growth() {
    let mut map = vec![vec![true]];
    resize(&mut map, 4, 3);
    assert_eq!(floor_tiles(&map), vec![(1, 1)]);
}

#[test]
fn fill_turns_points_into_floor() {
    let mut map = walls(3, 3);
    fill(&mut map, &vec![(0, 0), (2, 1), (0, 0)]);
    assert_eq!(floor_tiles(&map), vec![(0, 0), (2, 1)]);
}

#[test]
fn random_points_are_on_the_map() {
    let map = walls(5, 3);
    let points = random(&map, 50);
    assert_eq!(points.len(), 50);
    assert!(points.iter().all(|&(x, y)| x < 5 && y < 3));
    assert!(random(&map, 0).is_empty());
}

#[test]
fn random_seeds_add_at_most_count_tiles() {
    let mut map = walls(6, 6);
    random_seeds(&mut map, 4);
    let n = floor_tiles(&map).len();
    assert!(n >= 1 && n <= 4);
}

#[test]
fn regular_grid_column_by_column() {
    let map = walls(5, 5);
    assert_eq!(
        regular(&map, 2),
        vec![(0, 0), (0, 2), (0, 4), (2, 0), (2, 2), (2, 4), (4, 0), (4, 2), (4, 4)]
    );
    assert_eq!(regular(&walls(3, 2), 5), vec![(0, 0)]);
}

#[test]
fn regular_seeds_paint_the_grid() {
    let mut map = walls(4, 3);
    regular_seeds(&mut map, 3);
    assert_eq!(floor_tiles(&map), vec![(0, 0), (3, 0)]);
}

#[test]
fn square_fill_around_the_middle() {
    let mut map = walls(7, 7);
    square_fill_seeds(&mut map, 1);
    let mut expected = Vec::new();
    for y in 2..=4 {
        for x in 2..=4 {
            expected.push((x, y));
        }
    }
    assert_eq!(floor_tiles(&map), expected);
}

#[test]
fn square_fill_is_cut_to_the_map() {
    let mut map = walls(4, 4);
    square_fill_seeds(&mut map, 10);
    assert_eq!(floor_tiles(&map).len(), 16);
}

#[test]
fn cross_of_thickness_one() {
    let mut map = walls(7, 7);
    cross_seeds(&mut map, 1, 2);
    assert_eq!(floor_tiles(&map), vec![(3, 2), (2, 3), (3, 3), (4, 3), (3, 4)]);
}

#[test]
fn cross_of_thickness_two() {
    let mut map = walls(6, 6);
    cross_seeds(&mut map, 2, 1);
    // offsets -1 and 0 around the centre (3, 3), arms of length one
    assert_eq!(floor_tiles(&map), vec![(3, 2), (2, 3), (3, 3)]);
}

#[test]
fn circle_fill_on_doubled_coordinates() {
    let mut map = walls(5, 5);
    circle_fill_seeds(&mut map, 1);
    assert_eq!(floor_tiles(&map), vec![(2, 2), (3, 2), (2, 3), (3, 3)]);
    let mut small = walls(5, 5);
    circle_fill_seeds(&mut small, 0);
    assert!(floor_tiles(&small).is_empty());
}

#[test]
fn gray_levels_of_a_map() {
    let map = vec![vec![true, false], vec![false, true]];
    assert_eq!(map_to_gray(&map), vec![vec![255, 0], vec![0, 255]]);
}

#[test]
fn diamond_ring_in_reading_order() {
    let map = walls(5, 5);
    assert_eq!(diamond(&map, 1, 1, (2, 2)), vec![(2, 1), (1, 2), (3, 2), (2, 3)]);
    assert_eq!(diamond(&map, 1, 0, (0, 0)), vec![(0, 0)]);
    assert!(diamond(&map, 0, 1, (2, 2)).is_empty());
}

#[test]
fn diamond_of_thickness_two_lists_each_ring() {
    let map = walls(3, 3);
    assert_eq!(diamond(&map, 2, 0, (1, 1)), vec![(1, 1), (1, 0), (0, 1), (2, 1), (1, 2)]);
}

#[test]
fn diamond_seeds_paint_a_hollow_diamond() {
    let mut map = walls(5, 5);
    diamond_seeds(&mut map, 1, 1);
    assert_eq!(floor_tiles(&map), vec![(2, 1), (1, 2), (3, 2), (2, 3)]);
}

#[test]
fn brush_square_column_by_column() {
    assert_eq!(
        brush(5, 5, 2, 10, 10),
        vec![(4, 4), (4, 5), (4, 6), (5, 4), (5, 5), (5, 6), (6, 4), (6, 5), (6, 6)]
    );
    assert_eq!(brush(0, 0, 4, 3, 3).len(), 9);
    assert_eq!(brush(1, 1, 1, 5, 5), vec![(1, 1)]);
    assert!(brush(9, 9, 0, 5, 5).is_empty());
}

#[test]
fn line_follows_bresenham() {
    let map = walls(10, 10);
    assert_eq!(generation::freeform::line::line(&map, (0, 0), (3, 1)), vec![(0, 0), (1, 0), (2, 1), (3, 1)]);
    assert_eq!(generation::freeform::line::line(&map, (4, 4), (1, 6)), vec![(4, 4), (3, 5), (2, 5), (1, 6)]);
    assert_eq!(generation::freeform::line::line(&map, (2, 2), (2, 2)), vec![(2, 2)]);
}

#[test]
fn line_keeps_only_tiles_on_the_map() {
    let map = walls(3, 3);
    assert_eq!(generation::freeform::line::line(&map, (0, 0), (5, 0)), vec![(0, 0), (1, 0), (2, 0)]);
}

#[test]
fn line_steps_between_neighbouring_tiles() {
    let map = walls(20, 20);
    let points = generation::freeform::line::line(&map, (1, 17), (15, 3));
    assert_eq!(points.first(), Some(&(1, 17)));
    assert_eq!(points.last(), Some(&(15, 3)));
    for w in points.windows(2) {
        let dx = (w[0].0 as i64 - w[1].0 as i64).abs();
        let dy = (w[0].1 as i64 - w[1].1 as i64).abs();
        assert!(dx <= 1 && dy <= 1 && dx + dy > 0);
    }
}

#[test]
fn count_floors_counts_the_eight_neighbours() {
    let mut map = walls(3, 3);
    map[0][0] = true;
    map[1][1] = true;
    map[2][1] = true;
    assert_eq!(count_floors(&map, 1, 1), 2);
    let full = vec![vec![true; 3]; 3];
    assert_eq!(count_floors(&full, 1, 1), 8);
}

#[test]
fn cellular_automaton_closes_a_hole() {
    let mut map = walls(5, 5);
    for y in 1..=3 {
        for x in 1..=3 {
            map[y][x] = !(x == 2 && y == 2);
        }
    }
    let steps = Cell::new(0usize);
    cellular_automata(&mut map, 1, |i, _| {
        assert_eq!(i, steps.get());
        steps.set(steps.get() + 1);
    });
    assert_eq!(steps.get(), 1);
    let mut expected = Vec::new();
    for y in 1..=3 {
        for x in 1..=3 {
            expected.push((x, y));
        }
    }
    assert_eq!(floor_tiles(&map), expected);
}

#[test]
fn cellular_automaton_keeps_floor_and_border() {
    let mut map = walls(6, 6);
    map[0][0] = true;
    map[2][3] = true;
    map[5][5] = true;
    cellular_automata(&mut map, 3, |_, _| {});
    assert_eq!(floor_tiles(&map), vec![(0, 0), (3, 2), (5, 5)]);
}

#[test]
fn adjacency_to_floor_by_edges_only() {
    let mut map = walls(3, 3);
    map[1][1] = true;
    assert!(is_adjacent_to_occupied(1, 0, &map, 3));
    assert!(is_adjacent_to_occupied(0, 1, &map, 3));
    assert!(!is_adjacent_to_occupied(0, 0, &map, 3));
    assert!(!is_adjacent_to_occupied(2, 2, &map, 3));
}

#[test]
fn dla_attaches_next_to_the_floor() {
    let mut map = walls(9, 9);
    map[4][4] = true;
    let calls = Cell::new(0usize);
    dla_generation(&mut map, 3, 5, &vec![(4, 5)], &vec![], 0, 1, |count, target, _| {
        assert_eq!(count, 2);
        assert_eq!(target, 3);
        calls.set(calls.get() + 1);
    });
    assert_eq!(calls.get(), 5);
    assert_eq!(floor_tiles(&map), vec![(4, 4), (4, 5)]);
}

#[test]
fn dla_grows_at_most_the_target() {
    let mut map = walls(12, 12);
    map[6][6] = true;
    dla_generation(&mut map, 4, 40, &vec![(0, 0), (11, 11)], &vec![(6, 6)], 1, 2, |_, _, _| {});
    let n = floor_tiles(&map).len();
    assert!(n >= 1 && n <= 5);
    assert!(map[6][6]);
}

#[test]
fn dla_with_no_target_does_nothing() {
    let mut map = walls(4, 4);
    map[0][0] = true;
    let before = map.clone();
    dla_generation(&mut map, 0, 10, &vec![], &vec![], 0, 1, |_, _, _| {});
    assert_eq!(map, before);
}

#[test]
fn circle_fill_with_a_huge_radius_covers_the_map() {
    let mut map = walls(4, 3);
    circle_fill_seeds(&mut map, usize::MAX);
    assert_eq!(floor_tiles(&map).len(), 12);
}

#[test]
fn particle_steps_for_given_draws() {
    // biased: one tile towards the bias point in each coordinate
    assert_eq!(particle_step(2, 2, 5, 5, true, (4, 0), 0), (3, 1));
    assert_eq!(particle_step(2, 2, 5, 5, true, (2, 2), 0), (2, 2));
    assert_eq!(particle_step(4, 0, 5, 5, true, (9, 0), 0), (4, 0));
    // random directions: left, right, up, down, blocked at the border
    assert_eq!(particle_step(2, 2, 5, 5, false, (0, 0), 0), (1, 2));
    assert_eq!(particle_step(2, 2, 5, 5, false, (0, 0), 1), (3, 2));
    assert_eq!(particle_step(2, 2, 5, 5, false, (0, 0), 2), (2, 1));
    assert_eq!(particle_step(2, 2, 5, 5, false, (0, 0), 3), (2, 3));
    assert_eq!(particle_step(0, 0, 5, 5, false, (0, 0), 0), (0, 0));
    assert_eq!(particle_step(0, 4, 5, 5, false, (0, 0), 3), (0, 4));
}

#[test]
fn dla_single_spawn_next_to_floor_always_sticks() {
    for _ in 0..5 {
        let mut map = walls(7, 7);
        map[3][3] = true;
        dla_generation(&mut map, 1, 1, &vec![(3, 2)], &vec![(0, 0)], 1, 2, |_, _, _| {});
        assert_eq!(floor_tiles(&map), vec![(3, 2), (3, 3)]);
    }
}

#[test]
fn two_smoothing_runs_equal_one_longer_run() {
    let mut seed = walls(9, 9);
    for &(x, y) in &[(2, 2), (3, 2), (4, 2), (2, 3), (2, 4), (3, 4), (5, 5), (6, 5), (5, 6), (6, 7), (4, 6)] {
        seed[y][x] = true;
    }
    let mut twice = seed.clone();
    cellular_automata(&mut twice, 1, |_, _| {});
    cellular_automata(&mut twice, 2, |_, _| {});
    let mut once = seed.clone();
    cellular_automata(&mut once, 3, |_, _| {});
    assert_eq!(twice, once);
}
