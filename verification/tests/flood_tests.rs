use generation::post::flood::{flood_fill, neighbors};

#[test]
fn neighbors_in_the_middle() {
    assert_eq!(neighbors((1, 1), 3, 3), vec![(0, 1), (2, 1), (1, 0), (1, 2)]);
}

#[test]
fn neighbors_at_a_corner() {
    assert_eq!(neighbors((0, 0), 3, 3), vec![(1, 0), (0, 1)]);
    assert_eq!(neighbors((2, 2), 3, 3), vec![(1, 2), (2, 1)]);
    assert!(neighbors((0, 0), 1, 1).is_empty());
}

#[test]
fn flood_distances_walk_around_walls() {
    let map = vec![
        vec![true, true, false],
        vec![false, true, false],
        vec![true, true, true],
    ];
    let m = usize::MAX;
    assert_eq!(
        flood_fill(&map, (0, 0)),
        vec![vec![0, 1, m], vec![m, 2, m], vec![4, 3, 4]]
    );
}

#[test]
fn flood_start_is_zero_even_on_a_wall() {
    let map = vec![vec![false, true], vec![false, false]];
    let m = usize::MAX;
    assert_eq!(flood_fill(&map, (0, 0)), vec![vec![0, 1], vec![m, m]]);
}

#[test]
fn flood_takes_the_shortest_way() {
    let map = vec![vec![true; 4]; 4];
    let d = flood_fill(&map, (1, 2));
    for y in 0..4 {
        for x in 0..4 {
            let expected = (x as i64 - 1).abs() + (y as i64 - 2).abs();
            assert_eq!(d[y][x] as i64, expected);
        }
    }
}

#[test]
fn flood_distances_are_symmetric() {
    let map = vec![
        vec![true, true, true, false],
        vec![false, false, true, true],
        vec![true, true, true, false],
    ];
    let floors: Vec<(usize, usize)> =
        (0..3).flat_map(|y| (0..4).map(move |x| (x, y))).filter(|&(x, y)| map[y][x]).collect();
    for &a in &floors {
        for &b in &floors {
            assert_eq!(flood_fill(&map, a)[b.1][b.0], flood_fill(&map, b)[a.1][a.0]);
        }
    }
}

#[test]
fn more_floor_never_lengthens_a_distance() {
    let narrow = vec![vec![true, true, true], vec![false, false, true], vec![true, true, true]];
    let mut wide = narrow.clone();
    wide[1][0] = true;
    let d1 = flood_fill(&narrow, (0, 0));
    let d2 = flood_fill(&wide, (0, 0));
    for y in 0..3 {
        for x in 0..3 {
            assert!(d2[y][x] <= d1[y][x]);
        }
    }
    assert_eq!(d1[2][0], 6);
    assert_eq!(d2[2][0], 2);
}
