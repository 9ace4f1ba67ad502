use generation::tileset::{
    Connector, EdgeSide, NeighborConstraints, PathType, Template, TilesetGenerator, CHUNK_SIZE,
};

fn main_entry(edge: EdgeSide) -> Connector {
    Connector { edge, position: 128, path_type: PathType::Main }
}

fn north_constraint() -> NeighborConstraints {
    let mut c = NeighborConstraints::new();
    c.insert(EdgeSide::North, vec![main_entry(EdgeSide::North)]);
    c
}

#[test]
fn opposite_edges() {
    assert_eq!(EdgeSide::North.opposite(), EdgeSide::South);
    assert_eq!(EdgeSide::South.opposite(), EdgeSide::North);
    assert_eq!(EdgeSide::East.opposite(), EdgeSide::West);
    assert_eq!(EdgeSide::West.opposite(), EdgeSide::East);
    for e in [EdgeSide::North, EdgeSide::South, EdgeSide::East, EdgeSide::West] {
        assert_eq!(e.opposite().opposite(), e);
        assert_ne!(e.opposite(), e);
    }
}

#[test]
fn connectors_match_across_facing_edges() {
    let a = main_entry(EdgeSide::North);
    let b = main_entry(EdgeSide::South);
    assert!(a.matches(&b));
    assert!(b.matches(&a));
    assert!(!a.matches(&a));
    let moved = Connector { position: 120, ..b };
    assert!(!a.matches(&moved));
    let side = Connector { path_type: PathType::Side, ..b };
    assert!(!a.matches(&side));
}

#[test]
fn new_template_is_solid() {
    let t = Template::new(7);
    assert_eq!(t.id, 7);
    assert_eq!(t.tiles.len(), CHUNK_SIZE);
    assert!(t.tiles.iter().all(|r| r.len() == CHUNK_SIZE && r.iter().all(|&b| !b)));
    assert!(t.connectors.is_empty());
}

#[test]
fn empty_library_gives_the_plain_room() {
    let g = TilesetGenerator::new();
    let t = g.generate_chunk(0, 0);
    assert_eq!(t.id, 0);
    assert!(t.connectors.is_empty());
    assert!(t.tiles[100][100]);
    assert!(t.tiles[64][64]);
    assert!(!t.tiles[63][100]);
    assert!(!t.tiles[0][128]);
    assert!(g.fitting_templates(&NeighborConstraints::new()).is_empty());
}

#[test]
fn library_holds_every_configuration() {
    let mut g = TilesetGenerator::new();
    g.generate_template_library(2);
    let all = g.fitting_templates(&NeighborConstraints::new());
    assert_eq!(all, (0..32).collect::<Vec<usize>>());
    let t = g.chunk_for_pick(&NeighborConstraints::new(), 19);
    assert_eq!(t.id, 19);
    // 19 % 16 == 3: east and west entries
    assert_eq!(t.connectors, vec![main_entry(EdgeSide::East), main_entry(EdgeSide::West)]);
}

#[test]
fn north_constraint_keeps_templates_with_a_north_entry() {
    let mut g = TilesetGenerator::new();
    g.generate_template_library(1);
    let c = north_constraint();
    assert_eq!(g.fitting_templates(&c), (8..16).collect::<Vec<usize>>());
    let first = g.chunk_for_pick(&c, 0);
    assert_eq!(first.id, 8);
    assert_eq!(first.connectors, vec![main_entry(EdgeSide::North)]);
    let last = g.chunk_for_pick(&c, 7);
    assert_eq!(last.id, 15);
    assert_eq!(
        last.connectors,
        vec![
            main_entry(EdgeSide::North),
            main_entry(EdgeSide::South),
            main_entry(EdgeSide::East),
            main_entry(EdgeSide::West),
        ]
    );
}

#[test]
fn unmet_constraint_falls_back_to_the_plain_room() {
    let mut g = TilesetGenerator::new();
    g.generate_template_library(1);
    let mut c = NeighborConstraints::new();
    c.insert(
        EdgeSide::West,
        vec![Connector { edge: EdgeSide::West, position: 128, path_type: PathType::Side }],
    );
    assert!(g.fitting_templates(&c).is_empty());
    let t = g.generate_chunk_with_constraints(4, 5, &c);
    assert_eq!(t.id, 0);
    assert!(t.connectors.is_empty());
}

#[test]
fn constrained_chunk_fits_and_repeats_for_the_same_place() {
    let mut g = TilesetGenerator::new();
    g.generate_template_library(1);
    let c = north_constraint();
    let a = g.generate_chunk_with_constraints(3, -2, &c);
    let b = g.generate_chunk_with_constraints(3, -2, &c);
    assert_eq!(a.id, b.id);
    assert!(a.id >= 8 && a.id < 16);
    assert!(a.connectors.contains(&main_entry(EdgeSide::North)));
}

#[test]
fn unconstrained_chunk_comes_from_the_library() {
    let mut g = TilesetGenerator::new();
    g.generate_template_library(1);
    let t = g.generate_chunk(10, 20);
    assert!(t.id < 16);
    let u = g.generate_chunk(10, 20);
    assert_eq!((t.id, &t.tiles, &t.connectors), (u.id, &u.tiles, &u.connectors));
}

#[test]
fn neighbor_connectors_face_back() {
    let mut g = TilesetGenerator::new();
    g.generate_template_library(1);
    let t = g.chunk_for_pick(&NeighborConstraints::new(), 15);
    assert_eq!(g.get_neighbor_connectors(&t, EdgeSide::East), vec![main_entry(EdgeSide::West)]);
    assert_eq!(g.get_neighbor_connectors(&t, EdgeSide::North), vec![main_entry(EdgeSide::South)]);
    let plain = g.chunk_for_pick(&NeighborConstraints::new(), 0);
    assert!(g.get_neighbor_connectors(&plain, EdgeSide::East).is_empty());
}

#[test]
fn constraints_get_and_replace() {
    let mut c = NeighborConstraints::new();
    assert!(c.get(EdgeSide::South).is_none());
    c.insert(EdgeSide::South, vec![main_entry(EdgeSide::South)]);
    assert_eq!(c.get(EdgeSide::South), Some(&vec![main_entry(EdgeSide::South)]));
    c.insert(EdgeSide::South, vec![]);
    assert_eq!(c.get(EdgeSide::South), Some(&vec![]));
    assert!(c.get(EdgeSide::North).is_none());
}

#[test]
fn bitmap_marks_connectors_in_red() {
    let mut g = TilesetGenerator::new();
    g.generate_template_library(1);
    let t = g.chunk_for_pick(&NeighborConstraints::new(), 8);
    let px = g.chunk_bitmap(&t);
    assert_eq!(px.len(), CHUNK_SIZE);
    assert!(px.iter().all(|r| r.len() == CHUNK_SIZE));
    for x in 126..=130 {
        assert_eq!(px[0][x], (255, 0, 0));
    }
    assert_eq!(px[0][125], (0, 0, 0));
    assert_eq!(px[0][131], (0, 0, 0));
    assert_eq!(px[1][128], (255, 255, 255));
    assert_eq!(px[100][100], (255, 255, 255));
    assert_eq!(px[0][0], (0, 0, 0));
    assert_eq!(px[255][128], (0, 0, 0));
}

#[test]
fn bitmap_of_a_side_path_is_green() {
    let g = TilesetGenerator::new();
    let mut t = Template::new(1);
    t.connectors.push(Connector { edge: EdgeSide::West, position: 2, path_type: PathType::Side });
    let px = g.chunk_bitmap(&t);
    for y in 0..=4 {
        assert_eq!(px[y][0], (0, 255, 0));
    }
    assert_eq!(px[5][0], (0, 0, 0));
}

#[test]
fn neighbour_constraint_keeps_templates_that_match_back() {
    let mut g = TilesetGenerator::new();
    g.generate_template_library(1);
    // the neighbour above is template 4 (south entry); its south edge faces our north
    let above = g.chunk_for_pick(&NeighborConstraints::new(), 4);
    let mut c = NeighborConstraints::new();
    c.insert(EdgeSide::South.opposite(), g.get_neighbor_connectors(&above, EdgeSide::South));
    let fits = g.fitting_templates(&c);
    assert_eq!(fits, (8..16).collect::<Vec<usize>>());
    for i in fits {
        let t = g.chunk_for_pick(&NeighborConstraints::new(), i);
        assert!(above.connectors.iter().all(|a| a.edge != EdgeSide::South || t.connectors.iter().any(|b| a.matches(b))));
    }
}

#[test]
fn generated_chunk_is_a_library_template() {
    let mut g = TilesetGenerator::new();
    g.generate_template_library(1);
    for (x, y) in [(0, 0), (5, -3), (-7, 11), (100, 100)] {
        let t = g.generate_chunk(x, y);
        let same = g.chunk_for_pick(&NeighborConstraints::new(), t.id);
        assert_eq!(t.tiles, same.tiles);
        assert_eq!(t.connectors, same.connectors);
    }
}
