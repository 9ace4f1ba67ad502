//! Chunk generation from a library of room templates whose edges carry
//! connectors; a chunk is chosen among the templates whose connectors match
//! those of its neighbours.

use vstd::prelude::*;
use rand::{Rng, SeedableRng};
use rand::rngs::StdRng;
use crate::grid::{filled_grid, grid_view};

verus! {

/// The side length of a chunk, in tiles.
pub const CHUNK_SIZE: usize = 256;

/// The kind of path a connector leads onto.
#[derive(Debug, Clone, Copy, PartialEq, Eq, Hash, Structural)]
pub enum PathType {
    Main,
    Side,
}

/// An edge of a chunk.
#[derive(Debug, Clone, Copy, PartialEq, Eq, Hash, Structural)]
pub enum EdgeSide {
    North,
    South,
    East,
    West,
}

/// The edge facing `e` across a chunk border.
pub open spec fn opposite_side(e: EdgeSide) -> EdgeSide {
    match e {
        EdgeSide::North => EdgeSide::South,
        EdgeSide::South => EdgeSide::North,
        EdgeSide::East => EdgeSide::West,
        EdgeSide::West => EdgeSide::East,
    }
}

impl EdgeSide {
    /// The edge facing this one across a chunk border.
    pub fn opposite(&self) -> (o: EdgeSide)
        ensures
            o == opposite_side(*self),
    {
        match self {
            EdgeSide::North => EdgeSide::South,
            EdgeSide::South => EdgeSide::North,
            EdgeSide::East => EdgeSide::West,
            EdgeSide::West => EdgeSide::East,
        }
    }
}

/// An entry point on an edge of a chunk.
#[derive(Debug, Clone, Copy, PartialEq, Eq, Hash, Structural)]
pub struct Connector {
    pub edge: EdgeSide,
    pub position: usize,
    pub path_type: PathType,
}

/// `a` and `b` can be joined across a chunk border: they sit on facing edges
/// at the same position and lead onto the same kind of path.
pub open spec fn connectors_match(a: Connector, b: Connector) -> bool {
    &&& opposite_side(a.edge) == b.edge
    &&& a.position == b.position
    &&& a.path_type == b.path_type
}

impl Connector {
    /// This connector can be joined with `other` (see `connectors_match`).
    pub fn matches(&self, other: &Connector) -> (r: bool)
        ensures
            r == connectors_match(*self, *other),
    {
        self.edge.opposite() == other.edge && self.position == other.position && self.path_type == other.path_type
    }
}

/// A chunk template: its identifier, its tiles (`true` = walkable) and its
/// connectors.
#[derive(Debug, Clone)]
pub struct Template {
    pub id: usize,
    pub tiles: Vec<Vec<bool>>,
    pub connectors: Vec<Connector>,
}

/// A template as mathematical values.
pub struct TemplateView {
    pub id: usize,
    pub tiles: Seq<Seq<bool>>,
    pub connectors: Seq<Connector>,
}

impl View for Template {
    type V = TemplateView;

    open spec fn view(&self) -> TemplateView {
        TemplateView { id: self.id, tiles: grid_view(&self.tiles), connectors: self.connectors@ }
    }
}

/// A `CHUNK_SIZE` by `CHUNK_SIZE` grid of solid tiles.
pub open spec fn solid_chunk() -> Seq<Seq<bool>> {
    Seq::new(CHUNK_SIZE as nat, |y: int| Seq::new(CHUNK_SIZE as nat, |x: int| false))
}

impl Template {
    /// An empty template: all tiles solid, no connectors.
    pub fn new(id: usize) -> (t: Template)
        ensures
            t@.id == id,
            t@.tiles == solid_chunk(),
            t@.connectors == Seq::<Connector>::empty(),
    {
        let t = Template { id, tiles: filled_grid(CHUNK_SIZE, CHUNK_SIZE, false), connectors: Vec::new() };
        assert(t@.tiles =~= solid_chunk());
        t
    }
}

fn copy_template(t: &Template) -> (c: Template)
    ensures
        c@ == t@,
{
    let tiles = t.tiles.clone();
    let connectors = t.connectors.clone();
    assert(grid_view(&tiles) =~= grid_view(&t.tiles));
    assert(connectors@ =~= t.connectors@);
    Template { id: t.id, tiles, connectors }
}

// ---------------------------------------------------------------------------
// The simple room template.

/// The walkable tiles of the simple template with the given `id`: a central
/// room covering `[64, 192)` in both directions, plus a five-tile-wide
/// corridor (columns or rows 126 to 130) from the room to each edge that has
/// an entry point. Bits 3, 2, 1, 0 of `id % 16` open the north, south, east
/// and west edges.
pub open spec fn simple_walkable(id: int, x: int, y: int) -> bool {
    let config = id % 16;
    ||| 64 <= x < 192 && 64 <= y < 192
    ||| config / 8 % 2 == 1 && 0 <= y < 64 && 126 <= x <= 130
    ||| config / 4 % 2 == 1 && 192 <= y < 256 && 126 <= x <= 130
    ||| config / 2 % 2 == 1 && 126 <= y <= 130 && 192 <= x < 256
    ||| config % 2 == 1 && 126 <= y <= 130 && 0 <= x < 64
}

/// A main-path connector at position 128 of the given edge.
pub open spec fn entry(edge: EdgeSide) -> Connector {
    Connector { edge, position: 128, path_type: PathType::Main }
}

/// The connectors of the simple template with the given `id`: one main-path
/// entry at position 128 on each open edge, in the order north, south,
/// east, west.
pub open spec fn simple_connectors(id: int) -> Seq<Connector> {
    let config = id % 16;
    (if config / 8 % 2 == 1 { seq![entry(EdgeSide::North)] } else { Seq::empty() })
        + (if config / 4 % 2 == 1 { seq![entry(EdgeSide::South)] } else { Seq::empty() })
        + (if config / 2 % 2 == 1 { seq![entry(EdgeSide::East)] } else { Seq::empty() })
        + (if config % 2 == 1 { seq![entry(EdgeSide::West)] } else { Seq::empty() })
}

/// The simple template with the given `id`.
pub open spec fn simple_template(id: usize) -> TemplateView {
    TemplateView {
        id,
        tiles: Seq::new(
            CHUNK_SIZE as nat,
            |y: int| Seq::new(CHUNK_SIZE as nat, |x: int| simple_walkable(id as int, x, y)),
        ),
        connectors: simple_connectors(id as int),
    }
}

/// Makes the tiles of the rectangle `[x_lo, x_hi) x [y_lo, y_hi)` walkable.
fn open_rect(tiles: &mut Vec<Vec<bool>>, x_lo: usize, x_hi: usize, y_lo: usize, y_hi: usize)
    requires
        x_lo <= x_hi <= CHUNK_SIZE,
        y_lo <= y_hi <= CHUNK_SIZE,
        old(tiles)@.len() == CHUNK_SIZE,
        forall|y: int| 0 <= y < CHUNK_SIZE ==> (#[trigger] old(tiles)@[y])@.len() == CHUNK_SIZE,
    ensures
        final(tiles)@.len() == CHUNK_SIZE,
        forall|y: int| 0 <= y < CHUNK_SIZE ==> (#[trigger] final(tiles)@[y])@.len() == CHUNK_SIZE,
        forall|y: int, x: int| #![trigger final(tiles)@[y]@[x]] 0 <= y < CHUNK_SIZE && 0 <= x < CHUNK_SIZE ==>
            final(tiles)@[y]@[x] == (old(tiles)@[y]@[x] || (x_lo <= x < x_hi && y_lo <= y < y_hi)),
{
    let mut y = y_lo;
    while y < y_hi
        invariant
            y_lo <= y <= y_hi <= CHUNK_SIZE,
            x_lo <= x_hi <= CHUNK_SIZE,
            tiles@.len() == CHUNK_SIZE,
            forall|j: int| 0 <= j < CHUNK_SIZE ==> (#[trigger] tiles@[j])@.len() == CHUNK_SIZE,
            forall|j: int, i: int| #![trigger tiles@[j]@[i]] 0 <= j < CHUNK_SIZE && 0 <= i < CHUNK_SIZE ==>
                tiles@[j]@[i] == (old(tiles)@[j]@[i] || (x_lo <= i < x_hi && y_lo <= j < y)),
        decreases y_hi - y,
    {
        let mut x = x_lo;
        while x < x_hi
            invariant
                y_lo <= y < y_hi <= CHUNK_SIZE,
                x_lo <= x <= x_hi <= CHUNK_SIZE,
                tiles@.len() == CHUNK_SIZE,
                forall|j: int| 0 <= j < CHUNK_SIZE ==> (#[trigger] tiles@[j])@.len() == CHUNK_SIZE,
                forall|j: int, i: int| #![trigger tiles@[j]@[i]] 0 <= j < CHUNK_SIZE && 0 <= i < CHUNK_SIZE ==>
                    tiles@[j]@[i] == (old(tiles)@[j]@[i] || (x_lo <= i < x_hi && (y_lo <= j < y || (j == y && i
                        < x)))),
            decreases x_hi - x,
        {
            tiles[y][x] = true;
            x = x + 1;
        }
        y = y + 1;
    }
}

/// The template used when no template fits: a room with a corridor and an
/// entry point on each edge opened by `id % 16` (see `simple_template`).
fn generate_simple_template(id: usize) -> (t: Template)
    ensures
        t@ == simple_template(id),
{
    let mut template = Template::new(id);
    proof {
        assert(template.tiles@.len() == grid_view(&template.tiles).len());
        assert forall|y: int| 0 <= y < CHUNK_SIZE implies (#[trigger] template.tiles@[y])@.len() == CHUNK_SIZE
            && forall|x: int| 0 <= x < CHUNK_SIZE ==> !template.tiles@[y]@[x] by {
            assert(grid_view(&template.tiles)[y] == template.tiles@[y]@);
        }
    }

    // the central room
    open_rect(&mut template.tiles, 64, 192, 64, 192);

    let entrypoint_position: usize = 128;
    let corridor_width: usize = 4;
    let lo = entrypoint_position - corridor_width / 2;
    let hi = entrypoint_position + corridor_width / 2 + 1;

    let config = id % 16;
    let has_north = (config & 0b1000) != 0;
    let has_south = (config & 0b0100) != 0;
    let has_east = (config & 0b0010) != 0;
    let has_west = (config & 0b0001) != 0;
    assert(has_north == (config / 8 % 2 == 1) && has_south == (config / 4 % 2 == 1) && has_east == (config / 2 % 2
        == 1) && has_west == (config % 2 == 1)) by (bit_vector)
        requires
            config < 16,
            has_north == ((config & 0b1000) != 0),
            has_south == ((config & 0b0100) != 0),
            has_east == ((config & 0b0010) != 0),
            has_west == ((config & 0b0001) != 0),
    ;

    let ghost before_corridors = template.connectors@;
    if has_north {
        open_rect(&mut template.tiles, lo, hi, 0, 64);
        template.connectors.push(Connector { edge: EdgeSide::North, position: entrypoint_position, path_type: PathType::Main });
    }
    if has_south {
        open_rect(&mut template.tiles, lo, hi, 192, CHUNK_SIZE);
        template.connectors.push(Connector { edge: EdgeSide::South, position: entrypoint_position, path_type: PathType::Main });
    }
    if has_east {
        open_rect(&mut template.tiles, 192, CHUNK_SIZE, lo, hi);
        template.connectors.push(Connector { edge: EdgeSide::East, position: entrypoint_position, path_type: PathType::Main });
    }
    if has_west {
        open_rect(&mut template.tiles, 0, 64, lo, hi);
        template.connectors.push(Connector { edge: EdgeSide::West, position: entrypoint_position, path_type: PathType::Main });
    }
    proof {
        let st = simple_template(id);
        assert forall|y: int| 0 <= y < CHUNK_SIZE implies (#[trigger] grid_view(&template.tiles)[y]) =~= st.tiles[y] by {
            assert forall|x: int| 0 <= x < CHUNK_SIZE implies grid_view(&template.tiles)[y][x] == st.tiles[y][x] by {
                assert(template.tiles@[y]@[x] == grid_view(&template.tiles)[y][x]);
            }
        }
        assert(grid_view(&template.tiles) =~= st.tiles);
        assert(template.connectors@ =~= simple_connectors(id as int));
    }
    template
}

// ---------------------------------------------------------------------------
// Neighbour constraints.

/// The connectors that the neighbours of a chunk expose, per edge of the
/// chunk: a map from (some of) the four edges to lists of connectors.
pub struct NeighborConstraints {
    north: Option<Vec<Connector>>,
    south: Option<Vec<Connector>>,
    east: Option<Vec<Connector>>,
    west: Option<Vec<Connector>>,
}

impl NeighborConstraints {
    /// What is stored for `edge`.
    pub closed spec fn slot(&self, edge: EdgeSide) -> Option<Vec<Connector>> {
        match edge {
            EdgeSide::North => self.north,
            EdgeSide::South => self.south,
            EdgeSide::East => self.east,
            EdgeSide::West => self.west,
        }
    }
}

impl View for NeighborConstraints {
    type V = Map<EdgeSide, Seq<Connector>>;

    closed spec fn view(&self) -> Map<EdgeSide, Seq<Connector>> {
        Map::new(|e: EdgeSide| self.slot(e) is Some, |e: EdgeSide| self.slot(e).unwrap()@)
    }
}

impl NeighborConstraints {
    /// No constraints on any edge.
    pub fn new() -> (c: NeighborConstraints)
        ensures
            c@ == Map::<EdgeSide, Seq<Connector>>::empty(),
    {
        let c = NeighborConstraints { north: None, south: None, east: None, west: None };
        assert(c@ =~= Map::<EdgeSide, Seq<Connector>>::empty());
        c
    }

    /// Sets the connectors required on `edge`, replacing any set before.
    pub fn insert(&mut self, edge: EdgeSide, connectors: Vec<Connector>)
        ensures
            final(self)@ == old(self)@.insert(edge, connectors@),
    {
        match edge {
            EdgeSide::North => self.north = Some(connectors),
            EdgeSide::South => self.south = Some(connectors),
            EdgeSide::East => self.east = Some(connectors),
            EdgeSide::West => self.west = Some(connectors),
        }
        assert(self@ =~= old(self)@.insert(edge, connectors@));
    }

    /// The connectors required on `edge`, if any.
    pub fn get(&self, edge: EdgeSide) -> (r: Option<&Vec<Connector>>)
        ensures
            r is Some <==> self@.contains_key(edge),
            r is Some ==> r.unwrap()@ == self@[edge],
    {
        match edge {
            EdgeSide::North => self.north.as_ref(),
            EdgeSide::South => self.south.as_ref(),
            EdgeSide::East => self.east.as_ref(),
            EdgeSide::West => self.west.as_ref(),
        }
    }
}

/// `conns` has a connector on `edge` at the position of `wanted` and of its
/// path type.
pub open spec fn has_counterpart(conns: Seq<Connector>, edge: EdgeSide, wanted: Connector) -> bool {
    exists|i: int|
        0 <= i < conns.len() && (#[trigger] conns[i]).edge == edge && conns[i].position == wanted.position
            && conns[i].path_type == wanted.path_type
}

/// For every constrained edge, every neighbour connector listed for it has a
/// counterpart on that edge of the template.
pub open spec fn satisfies_constraints(t: TemplateView, neighbors: Map<EdgeSide, Seq<Connector>>) -> bool {
    forall|e: EdgeSide, j: int| #![trigger neighbors[e][j]]
        neighbors.contains_key(e) && 0 <= j < neighbors[e].len() ==> has_counterpart(t.connectors, e, neighbors[e][j])
}

/// Whether `conns` has a counterpart for every connector of `wanted` on `edge`.
fn all_have_counterparts(conns: &Vec<Connector>, edge: EdgeSide, wanted: &Vec<Connector>) -> (r: bool)
    ensures
        r == forall|j: int| 0 <= j < wanted@.len() ==> has_counterpart(conns@, edge, #[trigger] wanted@[j]),
{
    let mut j: usize = 0;
    while j < wanted.len()
        invariant
            j <= wanted@.len(),
            forall|k: int| 0 <= k < j ==> has_counterpart(conns@, edge, #[trigger] wanted@[k]),
        decreases wanted@.len() - j,
    {
        let w = wanted[j];
        let mut has_match = false;
        let mut i: usize = 0;
        while i < conns.len()
            invariant
                i <= conns@.len(),
                w == wanted@[j as int],
                has_match == exists|k: int| 0 <= k < i && (#[trigger] conns@[k]).edge == edge
                    && conns@[k].position == w.position && conns@[k].path_type == w.path_type,
            decreases conns@.len() - i,
        {
            let c = conns[i];
            if c.edge == edge && c.position == w.position && c.path_type == w.path_type {
                has_match = true;
            }
            i = i + 1;
        }
        if !has_match {
            return false;
        }
        j = j + 1;
    }
    true
}

// ---------------------------------------------------------------------------
// The generator.

/// The seed of the chunk at `(x, y)`: `x` in the upper 32 bits, `y` in the
/// lower (both taken as 64-bit values, sign-extended).
pub open spec fn chunk_seed(x: i32, y: i32) -> u64 {
    ((x as u64) << 32u64) | (y as u64)
}

/// What `StdRng::seed_from_u64(seed).random_range(0..bound)` returns: a value
/// that depends on `seed` and `bound` alone.
pub uninterp spec fn seeded_pick(seed: u64, bound: usize) -> usize;

/// `StdRng::seed_from_u64(seed)` followed by one `random_range(0..bound)`.
/// The crate documents a value in the range, a panic only for an empty
/// range (ruled out by `requires`), and a generator that is deterministic
/// for a given seed; the value itself is named, not stated.
#[verifier::external_body]
fn pick_seeded(seed: u64, bound: usize) -> (r: usize)
    requires
        bound > 0,
    ensures
        r < bound,
        r == seeded_pick(seed, bound),
{
    StdRng::seed_from_u64(seed).random_range(0..bound)
}

/// Generates chunks from a library of templates.
pub struct TilesetGenerator {
    templates: Vec<Template>,
}

/// The indices, in order, of the first `n` templates that satisfy the
/// constraints.
pub open spec fn fitting_indices(
    templates: Seq<TemplateView>,
    neighbors: Map<EdgeSide, Seq<Connector>>,
    n: int,
) -> Seq<usize>
    decreases n,
{
    if n <= 0 {
        Seq::empty()
    } else {
        let rest = fitting_indices(templates, neighbors, n - 1);
        if satisfies_constraints(templates[n - 1], neighbors) { rest.push((n - 1) as usize) } else { rest }
    }
}

/// The chunk chosen for a draw `pick` (used modulo nothing: it must be below
/// the number of fitting templates): the `pick`-th fitting template, or the
/// simple template with id 0 when no template fits.
pub open spec fn chosen_chunk(
    templates: Seq<TemplateView>,
    neighbors: Map<EdgeSide, Seq<Connector>>,
    pick: int,
) -> TemplateView {
    let fitting = fitting_indices(templates, neighbors, templates.len() as int);
    if fitting.len() == 0 {
        simple_template(0)
    } else {
        templates[fitting[pick] as int]
    }
}

/// With no constraints every template fits.
proof fn lemma_fitting_unconstrained(templates: Seq<TemplateView>, n: int)
    requires
        0 <= n <= templates.len(),
    ensures
        fitting_indices(templates, Map::<EdgeSide, Seq<Connector>>::empty(), n).len() == n,
    decreases n,
{
    if n > 0 {
        lemma_fitting_unconstrained(templates, n - 1);
        assert(satisfies_constraints(templates[n - 1], Map::<EdgeSide, Seq<Connector>>::empty()));
    }
}

proof fn lemma_fitting_indices(templates: Seq<TemplateView>, neighbors: Map<EdgeSide, Seq<Connector>>, n: int)
    requires
        0 <= n <= templates.len(),
        templates.len() <= usize::MAX,
    ensures
        fitting_indices(templates, neighbors, n).len() <= n,
        forall|k: int| 0 <= k < fitting_indices(templates, neighbors, n).len() ==>
            #[trigger] fitting_indices(templates, neighbors, n)[k] < n,
    decreases n,
{
    if n > 0 {
        lemma_fitting_indices(templates, neighbors, n - 1);
    }
}

impl View for TilesetGenerator {
    type V = Seq<TemplateView>;

    closed spec fn view(&self) -> Seq<TemplateView> {
        self.templates@.map_values(|t: Template| t@)
    }
}

impl TilesetGenerator {
    /// A generator with an empty template library.
    pub fn new() -> (g: TilesetGenerator)
        ensures
            g@ == Seq::<TemplateView>::empty(),
    {
        let g = TilesetGenerator { templates: Vec::new() };
        assert(g@ =~= Seq::<TemplateView>::empty());
        g
    }

    /// Whether `template` satisfies the constraints (see `satisfies_constraints`).
    fn template_satisfies_constraints(&self, template: &Template, neighbors: &NeighborConstraints) -> (r: bool)
        ensures
            r == satisfies_constraints(template@, neighbors@),
    {
        let sides = [EdgeSide::North, EdgeSide::South, EdgeSide::East, EdgeSide::West];
        let mut k: usize = 0;
        while k < 4
            invariant
                k <= 4,
                sides@ == seq![EdgeSide::North, EdgeSide::South, EdgeSide::East, EdgeSide::West],
                forall|i: int, j: int| #![trigger neighbors@[sides@[i]][j]] 0 <= i < k && neighbors@.contains_key(sides@[i])
                    && 0 <= j < neighbors@[sides@[i]].len() ==> has_counterpart(
                    template@.connectors,
                    sides@[i],
                    neighbors@[sides@[i]][j],
                ),
            decreases 4 - k,
        {
            let side = sides[k];
            match neighbors.get(side) {
                Some(wanted) => {
                    if !all_have_counterparts(&template.connectors, side, wanted) {
                        return false;
                    }
                },
                None => {},
            }
            k = k + 1;
        }
        proof {
            assert forall|e: EdgeSide, j: int| #![trigger neighbors@[e][j]]
                neighbors@.contains_key(e) && 0 <= j < neighbors@[e].len() implies has_counterpart(
                template@.connectors,
                e,
                neighbors@[e][j],
            ) by {
                let i = match e {
                    EdgeSide::North => 0int,
                    EdgeSide::South => 1int,
                    EdgeSide::East => 2int,
                    EdgeSide::West => 3int,
                };
                assert(sides@[i] == e);
            }
        }
        true
    }

    /// The indices, in library order, of the templates that satisfy the
    /// constraints.
    pub fn fitting_templates(&self, neighbors: &NeighborConstraints) -> (r: Vec<usize>)
        ensures
            r@ == fitting_indices(self@, neighbors@, self@.len() as int),
    {
        let mut r: Vec<usize> = Vec::new();
        let mut i: usize = 0;
        while i < self.templates.len()
            invariant
                i <= self.templates@.len(),
                self@.len() == self.templates@.len(),
                r@ == fitting_indices(self@, neighbors@, i as int),
            decreases self.templates@.len() - i,
        {
            assert(self@[i as int] == self.templates@[i as int]@);
            if self.template_satisfies_constraints(&self.templates[i], neighbors) {
                r.push(i);
            }
            i = i + 1;
        }
        r
    }

    /// The chunk for a draw `pick` from `0..n`, where `n` is the number of
    /// fitting templates (see `chosen_chunk`); with no fitting template,
    /// `pick` is not used.
    pub fn chunk_for_pick(&self, neighbors: &NeighborConstraints, pick: usize) -> (t: Template)
        requires
            fitting_indices(self@, neighbors@, self@.len() as int).len() > 0 ==> pick < fitting_indices(
                self@,
                neighbors@,
                self@.len() as int,
            ).len(),
        ensures
            t@ == chosen_chunk(self@, neighbors@, pick as int),
    {
        let valid = self.fitting_templates(neighbors);
        if valid.len() == 0 {
            generate_simple_template(0)
        } else {
            let count = self.templates.len();
            assert(self@.len() == count);
            proof {
                lemma_fitting_indices(self@, neighbors@, self@.len() as int);
            }
            let idx = valid[pick];
            assert(self@[idx as int] == self.templates@[idx as int]@);
            copy_template(&self.templates[idx])
        }
    }

    /// The chunk at `(x, y)` given its neighbours' connectors: one of the
    /// templates that satisfy the constraints, drawn with a generator seeded
    /// from the coordinates, so the same coordinates, library and constraints
    /// always give the same chunk; the simple template with id 0 when none
    /// fits.
    pub fn generate_chunk_with_constraints(&self, x: i32, y: i32, neighbors: &NeighborConstraints) -> (t: Template)
        ensures
            ({
                let n = fitting_indices(self@, neighbors@, self@.len() as int).len();
                &&& t@ == chosen_chunk(self@, neighbors@, seeded_pick(chunk_seed(x, y), n as usize) as int)
                &&& n > 0 ==> seeded_pick(chunk_seed(x, y), n as usize) < n
                &&& n > 0 ==> exists|k: int|
                    0 <= k < self@.len() && t@ == self@[k] && #[trigger] satisfies_constraints(self@[k], neighbors@)
                &&& n == 0 ==> t@ == simple_template(0)
            }),
    {
        let seed = ((x as u64) << 32) | (y as u64);
        let valid = self.fitting_templates(neighbors);
        let pick = if valid.len() == 0 {
            0
        } else {
            pick_seeded(seed, valid.len())
        };
        let t = self.chunk_for_pick(neighbors, pick);
        proof {
            if valid.len() > 0 {
                assert(self@.len() == self.templates.len());
                assert(pick < valid@.len());
                lemma_fitting_indices_satisfy(self@, neighbors@, self@.len() as int, pick as int);
                let k = fitting_indices(self@, neighbors@, self@.len() as int)[pick as int] as int;
                assert(t@ == self@[k]);
                assert(satisfies_constraints(self@[k], neighbors@));
            }
        }
        t
    }

    /// The chunk at `(x, y)` with no neighbour constraints.
    pub fn generate_chunk(&self, x: i32, y: i32) -> (t: Template)
        ensures
            ({
                let none = Map::<EdgeSide, Seq<Connector>>::empty();
                let n = fitting_indices(self@, none, self@.len() as int).len();
                &&& t@ == chosen_chunk(self@, none, seeded_pick(chunk_seed(x, y), n as usize) as int)
                &&& n == self@.len()
                &&& n > 0 ==> seeded_pick(chunk_seed(x, y), n as usize) < n
                &&& self@.len() > 0 ==> exists|k: int| 0 <= k < self@.len() && #[trigger] self@[k] == t@
                &&& self@.len() == 0 ==> t@ == simple_template(0)
            }),
    {
        let none = NeighborConstraints::new();
        let t = self.generate_chunk_with_constraints(x, y, &none);
        proof {
            lemma_fitting_unconstrained(self@, self@.len() as int);
            let n = self@.len();
            if n > 0 {
                let k = choose|k: int|
                    0 <= k < self@.len() && t@ == self@[k] && #[trigger] satisfies_constraints(self@[k], none@);
                assert(self@[k] == t@);
            }
        }
        t
    }

    /// Appends `variations_per_config` simple templates for each of the 16
    /// edge configurations: the templates with ids
    /// `config * variations_per_config + variation`, config by config, that
    /// is ids 0 to `16 * variations_per_config - 1` in order.
    pub fn generate_template_library(&mut self, variations_per_config: usize)
        requires
            16 * variations_per_config <= usize::MAX,
        ensures
            final(self)@ == old(self)@ + Seq::new(
                (16 * variations_per_config) as nat,
                |k: int| simple_template(k as usize),
            ),
    {
        let ghost start = self@;
        let mut config: usize = 0;
        while config < 16
            invariant
                config <= 16,
                16 * variations_per_config <= usize::MAX,
                self@ == start + Seq::new(
                    (config * variations_per_config) as nat,
                    |k: int| simple_template(k as usize),
                ),
            decreases 16 - config,
        {
            let mut variation: usize = 0;
            while variation < variations_per_config
                invariant
                    config < 16,
                    variation <= variations_per_config,
                    16 * variations_per_config <= usize::MAX,
                    self@ == start + Seq::new(
                        (config * variations_per_config + variation) as nat,
                        |k: int| simple_template(k as usize),
                    ),
                decreases variations_per_config - variation,
            {
                assert(config * variations_per_config + variation < 16 * variations_per_config) by (nonlinear_arith)
                    requires
                        config < 16,
                        variation < variations_per_config;
                let template_id = config * variations_per_config + variation;
                let template = generate_simple_template(template_id);
                let ghost before = self@;
                self.templates.push(template);
                assert(self@ =~= before.push(template@));
                assert(self@ =~= start + Seq::new(
                    (config * variations_per_config + variation + 1) as nat,
                    |k: int| simple_template(k as usize),
                ));
                variation = variation + 1;
            }
            assert((config + 1) * variations_per_config == config * variations_per_config + variations_per_config)
                by (nonlinear_arith);
            config = config + 1;
        }
    }

    /// The connectors of `chunk` on `edge`, in order, as its neighbour across
    /// that edge sees them: moved to the opposite edge, same position and
    /// path type.
    pub fn get_neighbor_connectors(&self, chunk: &Template, edge: EdgeSide) -> (r: Vec<Connector>)
        ensures
            r@ == facing_connectors(chunk@.connectors, edge, chunk@.connectors.len() as int),
    {
        let mut r: Vec<Connector> = Vec::new();
        let mut i: usize = 0;
        while i < chunk.connectors.len()
            invariant
                i <= chunk@.connectors.len(),
                r@ == facing_connectors(chunk@.connectors, edge, i as int),
            decreases chunk@.connectors.len() - i,
        {
            let c = chunk.connectors[i];
            if c.edge == edge {
                r.push(Connector { edge: c.edge.opposite(), position: c.position, path_type: c.path_type });
            }
            i = i + 1;
        }
        r
    }
}

/// Of the first `n` connectors, those on `edge`, each moved to the opposite
/// edge.
pub open spec fn facing_connectors(conns: Seq<Connector>, edge: EdgeSide, n: int) -> Seq<Connector>
    decreases n,
{
    if n <= 0 {
        Seq::empty()
    } else {
        let rest = facing_connectors(conns, edge, n - 1);
        let c = conns[n - 1];
        if c.edge == edge {
            rest.push(Connector { edge: opposite_side(c.edge), position: c.position, path_type: c.path_type })
        } else {
            rest
        }
    }
}

// ---------------------------------------------------------------------------
// Drawing a chunk.

/// Red for a main path, green for a side path.
pub open spec fn path_color(p: PathType) -> (u8, u8, u8) {
    match p {
        PathType::Main => (255u8, 0u8, 0u8),
        PathType::Side => (0u8, 255u8, 0u8),
    }
}

/// The pixel `(x, y)` lies on the mark of connector `c` among its first `k`
/// pixels: the pixels from `position - 2` on, along the border of its edge,
/// inside the chunk.
pub open spec fn marks(c: Connector, k: int, x: int, y: int) -> bool {
    let lo = c.position - 2;
    match c.edge {
        EdgeSide::North => y == 0 && lo <= x < lo + k && x < CHUNK_SIZE,
        EdgeSide::South => y == CHUNK_SIZE - 1 && lo <= x < lo + k && x < CHUNK_SIZE,
        EdgeSide::East => x == CHUNK_SIZE - 1 && lo <= y < lo + k && y < CHUNK_SIZE,
        EdgeSide::West => x == 0 && lo <= y < lo + k && y < CHUNK_SIZE,
    }
}

/// White for a walkable tile, black for a solid tile or a pixel with no tile.
pub open spec fn tile_color(t: TemplateView, x: int, y: int) -> (u8, u8, u8) {
    if 0 <= y < t.tiles.len() && 0 <= x < t.tiles[y].len() && t.tiles[y][x] {
        (255u8, 255u8, 255u8)
    } else {
        (0u8, 0u8, 0u8)
    }
}

/// The colour of pixel `(x, y)` once the tiles and the first `n` connectors
/// are drawn: the colour of the last of them whose five-pixel mark covers
/// it, else the tile colour.
pub open spec fn chunk_pixel(t: TemplateView, n: int, x: int, y: int) -> (u8, u8, u8)
    decreases n,
{
    if n <= 0 {
        tile_color(t, x, y)
    } else if marks(t.connectors[n - 1], 5, x, y) {
        path_color(t.connectors[n - 1].path_type)
    } else {
        chunk_pixel(t, n - 1, x, y)
    }
}

impl TilesetGenerator {
    /// The picture of a chunk, `CHUNK_SIZE` rows of `CHUNK_SIZE` RGB pixels
    /// (see `chunk_pixel`): walkable tiles white, solid tiles black, and each
    /// connector drawn in turn as a five-pixel mark on the border of its edge,
    /// red for a main path and green for a side path.
    pub fn chunk_bitmap(&self, chunk: &Template) -> (pixels: Vec<Vec<(u8, u8, u8)>>)
        requires
            chunk@.tiles.len() <= CHUNK_SIZE,
            forall|y: int| 0 <= y < chunk@.tiles.len() ==> (#[trigger] chunk@.tiles[y]).len() <= CHUNK_SIZE,
            forall|i: int| 0 <= i < chunk@.connectors.len() ==> 2 <= (#[trigger] chunk@.connectors[i]).position
                <= usize::MAX - 2,
        ensures
            pixels@.len() == CHUNK_SIZE,
            forall|y: int| 0 <= y < CHUNK_SIZE ==> (#[trigger] pixels@[y])@.len() == CHUNK_SIZE,
            forall|y: int, x: int| #![trigger pixels@[y]@[x]] 0 <= y < CHUNK_SIZE && 0 <= x < CHUNK_SIZE ==>
                pixels@[y]@[x] == chunk_pixel(chunk@, chunk@.connectors.len() as int, x, y),
    {
        let mut img = filled_grid(CHUNK_SIZE, CHUNK_SIZE, (0u8, 0u8, 0u8));
        let ghost t = chunk@;

        // the tiles
        let mut y: usize = 0;
        while y < chunk.tiles.len()
            invariant
                y <= chunk@.tiles.len() <= CHUNK_SIZE,
                t == chunk@,
                forall|j: int| 0 <= j < t.tiles.len() ==> (#[trigger] t.tiles[j]).len() <= CHUNK_SIZE,
                img@.len() == CHUNK_SIZE,
                forall|j: int| 0 <= j < CHUNK_SIZE ==> (#[trigger] img@[j])@.len() == CHUNK_SIZE,
                forall|j: int, i: int| #![trigger img@[j]@[i]] 0 <= j < CHUNK_SIZE && 0 <= i < CHUNK_SIZE ==>
                    img@[j]@[i] == if j < y { tile_color(t, i, j) } else { (0u8, 0u8, 0u8) },
            decreases chunk@.tiles.len() - y,
        {
            assert(t.tiles[y as int] == chunk.tiles@[y as int]@);
            let mut x: usize = 0;
            while x < chunk.tiles[y].len()
                invariant
                    y < chunk@.tiles.len() <= CHUNK_SIZE,
                    t == chunk@,
                    t.tiles[y as int] == chunk.tiles@[y as int]@,
                    x <= t.tiles[y as int].len() <= CHUNK_SIZE,
                    img@.len() == CHUNK_SIZE,
                    forall|j: int| 0 <= j < CHUNK_SIZE ==> (#[trigger] img@[j])@.len() == CHUNK_SIZE,
                    forall|j: int, i: int| #![trigger img@[j]@[i]] 0 <= j < CHUNK_SIZE && 0 <= i < CHUNK_SIZE ==>
                        img@[j]@[i] == if j < y || (j == y && i < x) { tile_color(t, i, j) } else { (0u8, 0u8, 0u8) },
                decreases t.tiles[y as int].len() - x,
            {
                let color = if chunk.tiles[y][x] { (255u8, 255u8, 255u8) } else { (0u8, 0u8, 0u8) };
                img[y][x] = color;
                x = x + 1;
            }
            y = y + 1;
        }

        // the connectors, in order
        let mut n: usize = 0;
        while n < chunk.connectors.len()
            invariant
                n <= chunk@.connectors.len(),
                t == chunk@,
                forall|i: int| 0 <= i < t.connectors.len() ==> 2 <= (#[trigger] t.connectors[i]).position <= usize::MAX
                    - 2,
                img@.len() == CHUNK_SIZE,
                forall|j: int| 0 <= j < CHUNK_SIZE ==> (#[trigger] img@[j])@.len() == CHUNK_SIZE,
                forall|j: int, i: int| #![trigger img@[j]@[i]] 0 <= j < CHUNK_SIZE && 0 <= i < CHUNK_SIZE ==>
                    img@[j]@[i] == chunk_pixel(t, n as int, i, j),
            decreases chunk@.connectors.len() - n,
        {
            let connector = chunk.connectors[n];
            let color = match connector.path_type {
                PathType::Main => (255u8, 0u8, 0u8),
                PathType::Side => (0u8, 255u8, 0u8),
            };
            let corridor_width: usize = 4;
            let start_pos = connector.position - corridor_width / 2;
            let mut k: usize = 0;
            while k < 5
                invariant
                    k <= 5,
                    n < t.connectors.len(),
                    connector == t.connectors[n as int],
                    start_pos == connector.position - 2,
                    2 <= connector.position <= usize::MAX - 2,
                    color == path_color(connector.path_type),
                    img@.len() == CHUNK_SIZE,
                    forall|j: int| 0 <= j < CHUNK_SIZE ==> (#[trigger] img@[j])@.len() == CHUNK_SIZE,
                    forall|j: int, i: int| #![trigger img@[j]@[i]] 0 <= j < CHUNK_SIZE && 0 <= i < CHUNK_SIZE ==>
                        img@[j]@[i] == if marks(connector, k as int, i, j) {
                            color
                        } else {
                            chunk_pixel(t, n as int, i, j)
                        },
                decreases 5 - k,
            {
                let p = start_pos + k;
                if p < CHUNK_SIZE {
                    match connector.edge {
                        EdgeSide::North => {
                            img[0][p] = color;
                        },
                        EdgeSide::South => {
                            img[CHUNK_SIZE - 1][p] = color;
                        },
                        EdgeSide::East => {
                            img[p][CHUNK_SIZE - 1] = color;
                        },
                        EdgeSide::West => {
                            img[p][0] = color;
                        },
                    }
                }
                k = k + 1;
            }
            n = n + 1;
        }
        img
    }
}

// ---------------------------------------------------------------------------
// Laws.

/// Facing across a border twice brings an edge back to itself.
pub proof fn lemma_opposite_involution(e: EdgeSide)
    ensures
        opposite_side(opposite_side(e)) == e,
        opposite_side(e) != e,
{
}

/// Two connectors that match can be joined from either side.
pub proof fn lemma_matches_symmetric(a: Connector, b: Connector)
    ensures
        connectors_match(a, b) == connectors_match(b, a),
{
}

/// Every connector that `get_neighbor_connectors` reports for an edge
/// matches a connector of the chunk on that edge.
pub proof fn lemma_facing_connectors_match(conns: Seq<Connector>, edge: EdgeSide, n: int, k: int)
    requires
        0 <= n <= conns.len(),
        0 <= k < facing_connectors(conns, edge, n).len(),
    ensures
        exists|i: int| 0 <= i < n && conns[i].edge == edge
            && #[trigger] connectors_match(conns[i], facing_connectors(conns, edge, n)[k]),
    decreases n,
{
    let rest = facing_connectors(conns, edge, n - 1);
    if k < rest.len() {
        lemma_facing_connectors_match(conns, edge, n - 1, k);
        let i = choose|i: int| 0 <= i < n - 1 && conns[i].edge == edge
            && #[trigger] connectors_match(conns[i], facing_connectors(conns, edge, n - 1)[k]);
        assert(facing_connectors(conns, edge, n)[k] == rest[k]);
        assert(connectors_match(conns[i], facing_connectors(conns, edge, n)[k]));
    } else {
        assert(connectors_match(conns[n - 1], facing_connectors(conns, edge, n)[k]));
    }
}

/// Some connector of `conns` matches `c`.
pub open spec fn has_match(c: Connector, conns: Seq<Connector>) -> bool {
    exists|i: int| 0 <= i < conns.len() && connectors_match(c, #[trigger] conns[i])
}

/// Every connector of `l` has a counterpart on edge `edge` of `conns`.
pub open spec fn all_countered(conns: Seq<Connector>, edge: EdgeSide, l: Seq<Connector>) -> bool {
    forall|j: int| 0 <= j < l.len() ==> #[trigger] has_counterpart(conns, edge, l[j])
}

/// Every connector among the first `n` of `a` that lies on edge `e` matches
/// some connector of `conns`.
pub open spec fn all_matched(a: Seq<Connector>, e: EdgeSide, n: int, conns: Seq<Connector>) -> bool {
    forall|k: int| 0 <= k < n && a[k].edge == e ==> #[trigger] has_match(a[k], conns)
}

proof fn lemma_counterpart_is_match(c: Connector, e: EdgeSide, conns: Seq<Connector>)
    requires
        c.edge == e,
    ensures
        has_counterpart(
            conns,
            opposite_side(e),
            Connector { edge: opposite_side(e), position: c.position, path_type: c.path_type },
        ) == has_match(c, conns),
{
    let f = Connector { edge: opposite_side(e), position: c.position, path_type: c.path_type };
    if has_counterpart(conns, opposite_side(e), f) {
        let i = choose|i: int| 0 <= i < conns.len() && (#[trigger] conns[i]).edge == opposite_side(e)
            && conns[i].position == f.position && conns[i].path_type == f.path_type;
        assert(connectors_match(c, conns[i]));
    }
    if has_match(c, conns) {
        let i = choose|i: int| 0 <= i < conns.len() && connectors_match(c, #[trigger] conns[i]);
        assert(conns[i].edge == opposite_side(e));
    }
}

proof fn lemma_facing_countered(a: Seq<Connector>, e: EdgeSide, n: int, conns: Seq<Connector>)
    requires
        0 <= n <= a.len(),
    ensures
        all_countered(conns, opposite_side(e), facing_connectors(a, e, n)) == all_matched(a, e, n, conns),
    decreases n,
{
    if n > 0 {
        lemma_facing_countered(a, e, n - 1, conns);
        let rest = facing_connectors(a, e, n - 1);
        let f = facing_connectors(a, e, n);
        if a[n - 1].edge == e {
            lemma_counterpart_is_match(a[n - 1], e, conns);
            assert(f == rest.push(Connector { edge: opposite_side(a[n - 1].edge), position: a[n - 1].position, path_type: a[n - 1].path_type }));
            if all_countered(conns, opposite_side(e), f) {
                assert forall|j: int| 0 <= j < rest.len() implies #[trigger] has_counterpart(conns, opposite_side(e), rest[j]) by {
                    assert(f[j] == rest[j]);
                }
                assert(has_counterpart(conns, opposite_side(e), f[rest.len() as int]));
                assert forall|k: int| 0 <= k < n && a[k].edge == e implies #[trigger] has_match(a[k], conns) by {
                    if k < n - 1 {
                        assert(all_matched(a, e, n - 1, conns));
                    }
                }
            }
            if all_matched(a, e, n, conns) {
                assert(all_matched(a, e, n - 1, conns));
                assert(has_match(a[n - 1], conns));
                assert forall|j: int| 0 <= j < f.len() implies #[trigger] has_counterpart(conns, opposite_side(e), f[j]) by {
                    if j < rest.len() {
                        assert(f[j] == rest[j]);
                    }
                }
            }
        } else {
            assert(f == rest);
            if all_matched(a, e, n - 1, conns) {
                assert forall|k: int| 0 <= k < n && a[k].edge == e implies #[trigger] has_match(a[k], conns) by {}
            }
            if all_matched(a, e, n, conns) {
                assert forall|k: int| 0 <= k < n - 1 && a[k].edge == e implies #[trigger] has_match(a[k], conns) by {}
            }
        }
    }
}

/// The constraint check (`template_satisfies_constraints`, whose result is
/// `satisfies_constraints`) accepts a template `b` against the constraint
/// that a neighbour with connectors `a` puts on the facing edge (what
/// `get_neighbor_connectors` gives for edge `e` of that neighbour, that is
/// `facing_connectors`) exactly when every connector of `a` on `e` matches
/// some connector of `b`.
pub proof fn lemma_neighbor_constraint_matches(a: Seq<Connector>, b: TemplateView, e: EdgeSide)
    ensures
        satisfies_constraints(
            b,
            Map::<EdgeSide, Seq<Connector>>::empty().insert(opposite_side(e), facing_connectors(a, e, a.len() as int)),
        ) == all_matched(a, e, a.len() as int, b.connectors),
{
    let f = facing_connectors(a, e, a.len() as int);
    let m = Map::<EdgeSide, Seq<Connector>>::empty().insert(opposite_side(e), f);
    lemma_facing_countered(a, e, a.len() as int, b.connectors);
    if satisfies_constraints(b, m) {
        assert forall|j: int| 0 <= j < f.len() implies #[trigger] has_counterpart(b.connectors, opposite_side(e), f[j]) by {
            assert(m[opposite_side(e)][j] == f[j]);
        }
    }
    if all_countered(b.connectors, opposite_side(e), f) {
        assert forall|ed: EdgeSide, j: int| #![trigger m[ed][j]] m.contains_key(ed) && 0 <= j < m[ed].len()
            implies has_counterpart(b.connectors, ed, m[ed][j]) by {
            assert(ed == opposite_side(e));
        }
    }
}

proof fn lemma_fitting_indices_satisfy(
    templates: Seq<TemplateView>,
    neighbors: Map<EdgeSide, Seq<Connector>>,
    n: int,
    k: int,
)
    requires
        0 <= n <= templates.len(),
        templates.len() <= usize::MAX,
        0 <= k < fitting_indices(templates, neighbors, n).len(),
    ensures
        0 <= fitting_indices(templates, neighbors, n)[k] < n,
        satisfies_constraints(templates[fitting_indices(templates, neighbors, n)[k] as int], neighbors),
    decreases n,
{
    let rest = fitting_indices(templates, neighbors, n - 1);
    if k < rest.len() {
        lemma_fitting_indices_satisfy(templates, neighbors, n - 1, k);
    }
}

/// Whenever some template of the library satisfies the neighbour
/// constraints, the chunk chosen for any draw in range is such a template.
pub proof fn lemma_chosen_chunk_fits(templates: Seq<TemplateView>, neighbors: Map<EdgeSide, Seq<Connector>>, pick: int)
    requires
        templates.len() <= usize::MAX,
        0 <= pick < fitting_indices(templates, neighbors, templates.len() as int).len(),
    ensures
        satisfies_constraints(chosen_chunk(templates, neighbors, pick), neighbors),
{
    lemma_fitting_indices_satisfy(templates, neighbors, templates.len() as int, pick);
}

/// When some template fits, there is a draw in range: the list of fitting
/// templates is not empty.
pub proof fn lemma_some_template_fits(templates: Seq<TemplateView>, neighbors: Map<EdgeSide, Seq<Connector>>, i: int)
    requires
        0 <= i < templates.len(),
        satisfies_constraints(templates[i], neighbors),
    ensures
        fitting_indices(templates, neighbors, templates.len() as int).len() > 0,
{
    lemma_fitting_nonempty(templates, neighbors, templates.len() as int, i);
}

proof fn lemma_fitting_nonempty(templates: Seq<TemplateView>, neighbors: Map<EdgeSide, Seq<Connector>>, n: int, i: int)
    requires
        0 <= i < n <= templates.len(),
        satisfies_constraints(templates[i], neighbors),
    ensures
        fitting_indices(templates, neighbors, n).len() > 0,
    decreases n,
{
    if i < n - 1 {
        lemma_fitting_nonempty(templates, neighbors, n - 1, i);
    }
}

/// Every entry point of a simple template opens onto a walkable tile on the
/// border of its edge, and the entry points are on distinct edges.
pub proof fn lemma_simple_template_entries_walkable(id: usize, k: int)
    requires
        0 <= k < simple_connectors(id as int).len(),
    ensures
        ({
            let c = simple_connectors(id as int)[k];
            let t = simple_template(id).tiles;
            match c.edge {
                EdgeSide::North => t[0][c.position as int],
                EdgeSide::South => t[CHUNK_SIZE - 1][c.position as int],
                EdgeSide::East => t[c.position as int][CHUNK_SIZE - 1],
                EdgeSide::West => t[c.position as int][0],
            }
        }),
        forall|j: int| 0 <= j < simple_connectors(id as int).len() && j != k ==>
            (#[trigger] simple_connectors(id as int)[j]).edge != simple_connectors(id as int)[k].edge,
{
    let config = id as int % 16;
    let n = if config / 8 % 2 == 1 { seq![entry(EdgeSide::North)] } else { Seq::empty() };
    let s = if config / 4 % 2 == 1 { seq![entry(EdgeSide::South)] } else { Seq::empty() };
    let e = if config / 2 % 2 == 1 { seq![entry(EdgeSide::East)] } else { Seq::empty() };
    let w = if config % 2 == 1 { seq![entry(EdgeSide::West)] } else { Seq::empty() };
    let all = simple_connectors(id as int);
    assert(all == n + s + e + w);
    assert forall|j: int| 0 <= j < all.len() implies {
        &&& (#[trigger] all[j]).position == 128
        &&& (all[j].edge == EdgeSide::North ==> config / 8 % 2 == 1 && j == 0)
        &&& (all[j].edge == EdgeSide::South ==> config / 4 % 2 == 1 && j == n.len())
        &&& (all[j].edge == EdgeSide::East ==> config / 2 % 2 == 1 && j == n.len() + s.len())
        &&& (all[j].edge == EdgeSide::West ==> config % 2 == 1 && j == n.len() + s.len() + e.len())
    } by {
        if j < n.len() {
            assert(all[j] == n[j]);
        } else if j < n.len() + s.len() {
            assert(all[j] == s[j - n.len()]);
        } else if j < n.len() + s.len() + e.len() {
            assert(all[j] == e[j - n.len() - s.len()]);
        } else {
            assert(all[j] == w[j - n.len() - s.len() - e.len()]);
        }
    }
}

/// The tile at depth `d` from the edge of connector `c` (depth 0 on the
/// edge itself, growing inwards), `off` tiles across from its position.
pub open spec fn corridor_tile(c: Connector, off: int, d: int) -> (int, int) {
    match c.edge {
        EdgeSide::North => (c.position + off, d),
        EdgeSide::South => (c.position + off, CHUNK_SIZE - 1 - d),
        EdgeSide::East => (CHUNK_SIZE - 1 - d, c.position + off),
        EdgeSide::West => (d, c.position + off),
    }
}

/// Every entry point of a simple template is joined to the central room: the
/// straight strip five tiles wide (two on either side of the entry) that runs
/// from the entry's edge 64 tiles inwards, to the room's border, is
/// walkable, and so is the whole room `[64, 192)` by `[64, 192)`.
pub proof fn lemma_simple_template_entries_reach_room(id: usize, k: int, off: int, d: int)
    requires
        0 <= k < simple_template(id).connectors.len(),
        -2 <= off <= 2,
        0 <= d <= 64,
    ensures
        ({
            let p = corridor_tile(simple_template(id).connectors[k], off, d);
            &&& 0 <= p.0 < CHUNK_SIZE
            &&& 0 <= p.1 < CHUNK_SIZE
            &&& simple_template(id).tiles[p.1][p.0]
        }),
        d == 64 ==> ({
            let p = corridor_tile(simple_template(id).connectors[k], off, d);
            64 <= p.0 < 192 && 64 <= p.1 < 192
        }),
        forall|x: int, y: int| 64 <= x < 192 && 64 <= y < 192 ==> #[trigger] simple_template(id).tiles[y][x],
{
    let config = id as int % 16;
    let n = if config / 8 % 2 == 1 { seq![entry(EdgeSide::North)] } else { Seq::empty() };
    let s = if config / 4 % 2 == 1 { seq![entry(EdgeSide::South)] } else { Seq::empty() };
    let e = if config / 2 % 2 == 1 { seq![entry(EdgeSide::East)] } else { Seq::empty() };
    let w = if config % 2 == 1 { seq![entry(EdgeSide::West)] } else { Seq::empty() };
    let all = simple_connectors(id as int);
    assert(all == n + s + e + w);
    let c = all[k];
    if k < n.len() {
        assert(c == n[k]);
    } else if k < n.len() + s.len() {
        assert(c == s[k - n.len()]);
    } else if k < n.len() + s.len() + e.len() {
        assert(c == e[k - n.len() - s.len()]);
    } else {
        assert(c == w[k - n.len() - s.len() - e.len()]);
    }
    let p = corridor_tile(c, off, d);
    assert(simple_walkable(id as int, p.0, p.1));
}

} // verus!
