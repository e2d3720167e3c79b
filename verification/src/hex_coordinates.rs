//! Axial hex coordinates, the six grid directions and the hex metric.
//!
//! Contracts are stated over [`Hex`], the unbounded mathematical view of a
//! [`Coordinate`]. The storage layout is an "odd-q" rectangle: column `q`,
//! row `r + floor(q / 2)`.

use vstd::prelude::*;

verus! {

/// Largest magnitude of a coordinate component for which the line and ring
/// enumerations are offered.
pub const REACH: i32 = 1_048_576;

/// Largest radius of a ring or range, and largest width or height of a map.
pub const MAX_SPAN: i32 = 32_768;

/// Axial hex coordinates. The third cube coordinate is `s = -q - r`.
///
/// ```text
///   +s_____-r
///    /     \
/// -q<       > +q
///    \_____/
///   +r     -s
/// ```
#[derive(Clone, Copy, Debug, Hash, PartialEq, Eq, Structural)]
pub struct Coordinate {
    pub q: i32,
    pub r: i32,
}

/// The six directions of the grid.
#[derive(Clone, Copy, Debug, PartialEq, Eq, Structural)]
pub enum Direction {
    North,
    NorthEast,
    SouthEast,
    South,
    SouthWest,
    NorthWest,
}

/// A hex cell with unbounded components: the mathematical model of a
/// [`Coordinate`].
pub ghost struct Hex {
    pub q: int,
    pub r: int,
}

pub open spec fn abs(x: int) -> int {
    if x < 0 {
        -x
    } else {
        x
    }
}

pub open spec fn max3(a: int, b: int, c: int) -> int {
    if a >= b && a >= c {
        a
    } else if b >= c {
        b
    } else {
        c
    }
}

impl Direction {
    /// Change of `q` when stepping in this direction.
    pub open spec fn dq(self) -> int {
        match self {
            Direction::North => 0,
            Direction::NorthEast => 1,
            Direction::SouthEast => 1,
            Direction::South => 0,
            Direction::SouthWest => -1,
            Direction::NorthWest => -1,
        }
    }

    /// Change of `r` when stepping in this direction.
    pub open spec fn dr(self) -> int {
        match self {
            Direction::North => -1,
            Direction::NorthEast => -1,
            Direction::SouthEast => 0,
            Direction::South => 1,
            Direction::SouthWest => 1,
            Direction::NorthWest => 0,
        }
    }

    /// The direction with the given number, counted from north in the order
    /// of [`Coordinate::neighbors`].
    pub open spec fn nth(i: int) -> Direction {
        if i == 0 {
            Direction::North
        } else if i == 1 {
            Direction::NorthEast
        } else if i == 2 {
            Direction::SouthEast
        } else if i == 3 {
            Direction::South
        } else if i == 4 {
            Direction::SouthWest
        } else {
            Direction::NorthWest
        }
    }

    /// The unit vector of this direction as `(dq, dr)`.
    pub fn offset(self) -> (v: (i32, i32))
        ensures
            v.0 == self.dq(),
            v.1 == self.dr(),
    {
        match self {
            Direction::North => (0, -1),
            Direction::NorthEast => (1, -1),
            Direction::SouthEast => (1, 0),
            Direction::South => (0, 1),
            Direction::SouthWest => (-1, 1),
            Direction::NorthWest => (-1, 0),
        }
    }

    /// The six directions, clockwise from north.
    pub fn all() -> (dirs: [Direction; 6])
        ensures
            forall|i: int| 0 <= i < 6 ==> dirs[i] == Direction::nth(i),
    {
        [
            Direction::North,
            Direction::NorthEast,
            Direction::SouthEast,
            Direction::South,
            Direction::SouthWest,
            Direction::NorthWest,
        ]
    }

    /// The direction pointing the other way.
    pub fn opposite(self) -> (d: Direction)
        ensures
            d.dq() == -self.dq(),
            d.dr() == -self.dr(),
    {
        match self {
            Direction::North => Direction::South,
            Direction::NorthEast => Direction::SouthWest,
            Direction::SouthEast => Direction::NorthWest,
            Direction::South => Direction::North,
            Direction::SouthWest => Direction::NorthEast,
            Direction::NorthWest => Direction::SouthEast,
        }
    }
}

impl Hex {
    /// The derived cube coordinate.
    pub open spec fn s(self) -> int {
        -self.q - self.r
    }

    /// The neighboring cell in direction `d`.
    pub open spec fn step(self, d: Direction) -> Hex {
        Hex { q: self.q + d.dq(), r: self.r + d.dr() }
    }

    /// The cell `n` steps away in direction `d`.
    pub open spec fn walk(self, d: Direction, n: int) -> Hex {
        Hex { q: self.q + n * d.dq(), r: self.r + n * d.dr() }
    }

    /// Hex distance: the largest of `|dq|`, `|dr|` and `|ds|`.
    pub open spec fn distance(self, other: Hex) -> int {
        max3(
            abs(self.q - other.q),
            abs(self.r - other.r),
            abs(self.s() - other.s()),
        )
    }

    /// Two cells are neighbors when one step leads from one to the other.
    #[verifier::opaque]
    pub open spec fn is_neighbor(self, other: Hex) -> bool {
        exists|d: Direction| self.step(d) == other
    }

    /// Both components fit a [`Coordinate`].
    pub open spec fn representable(self) -> bool {
        &&& i32::MIN <= self.q <= i32::MAX
        &&& i32::MIN <= self.r <= i32::MAX
    }

    /// Both components are within `bound` of zero.
    pub open spec fn within(self, bound: int) -> bool {
        &&& -bound <= self.q <= bound
        &&& -bound <= self.r <= bound
    }

    /// Both components are within [`REACH`] of zero.
    pub open spec fn in_reach(self) -> bool {
        self.within(REACH as int)
    }

    /// Column of the cell in the odd-q rectangle.
    pub open spec fn col(self) -> int {
        self.q
    }

    /// Row of the cell in the odd-q rectangle.
    pub open spec fn row(self) -> int {
        self.r + self.q / 2
    }

    /// The cell at the given column and row of the odd-q rectangle.
    pub open spec fn from_offset(col: int, row: int) -> Hex {
        Hex { q: col, r: row - col / 2 }
    }

    /// Position of the cell in a row-major rectangle of the given width.
    pub open spec fn index(self, width: int) -> int {
        self.row() * width + self.col()
    }

    /// The cell stored at `idx` in a row-major rectangle of the given width.
    pub open spec fn at_index(idx: int, width: int) -> Hex {
        Hex::from_offset(idx % width, idx / width)
    }

    /// Strict order by `q`, then by `r`.
    pub open spec fn lex_lt(self, other: Hex) -> bool {
        self.q < other.q || (self.q == other.q && self.r < other.r)
    }
}

impl View for Coordinate {
    type V = Hex;

    open spec fn view(&self) -> Hex {
        Hex { q: self.q as int, r: self.r as int }
    }
}

/// The views of a sequence of coordinates.
pub open spec fn hexes(cells: Seq<Coordinate>) -> Seq<Hex> {
    cells.map_values(|c: Coordinate| c@)
}

/// The views of a sequence of coordinate pairs.
pub open spec fn hex_pairs(pairs: Seq<(Coordinate, Coordinate)>) -> Seq<(Hex, Hex)> {
    pairs.map_values(|p: (Coordinate, Coordinate)| (p.0@, p.1@))
}

/// `floor(q / 2)`.
pub fn half_floor(q: i32) -> (h: i32)
    ensures
        h == q as int / 2,
{
    if q >= 0 {
        q / 2
    } else {
        let wide: i64 = (1 - q as i64) / 2;
        (-wide) as i32
    }
}


/// The direction of the given side of a ring. Side 0 starts at the
/// north-east corner; the sides follow each other around the center.
pub open spec fn ring_side(side: int) -> Direction {
    if side == 0 {
        Direction::NorthWest
    } else if side == 1 {
        Direction::SouthWest
    } else if side == 2 {
        Direction::South
    } else if side == 3 {
        Direction::SouthEast
    } else if side == 4 {
        Direction::NorthEast
    } else {
        Direction::North
    }
}

/// The direction from the center to the corner at which a side begins.
pub open spec fn ring_corner(side: int) -> Direction {
    if side == 0 {
        Direction::NorthEast
    } else if side == 1 {
        Direction::North
    } else if side == 2 {
        Direction::NorthWest
    } else if side == 3 {
        Direction::SouthWest
    } else if side == 4 {
        Direction::South
    } else {
        Direction::SouthEast
    }
}

/// The `k`-th cell of the ring of a positive radius: `k % radius` steps along
/// side `k / radius`.
pub open spec fn ring_cell(origin: Hex, radius: int, k: int) -> Hex {
    origin.walk(ring_corner(k / radius), radius).walk(ring_side(k / radius), k % radius)
}

/// The ring around `origin`: the cells at exactly the given distance, in
/// rotational order from the north-east corner. Radius 0 is the origin
/// alone; no cell is at a negative distance.
pub open spec fn ring_cells(origin: Hex, radius: int) -> Seq<Hex> {
    if radius < 0 {
        Seq::empty()
    } else if radius == 0 {
        seq![origin]
    } else {
        Seq::new((6 * radius) as nat, |k: int| ring_cell(origin, radius, k))
    }
}

/// `cells` lists, in strictly increasing order by `q` and then `r`, exactly
/// the cells within `radius` of `origin`.
pub open spec fn is_range_of(cells: Seq<Hex>, origin: Hex, radius: int) -> bool {
    &&& forall|i: int, j: int| 0 <= i < j < cells.len() ==> (#[trigger] cells[i]).lex_lt(#[trigger] cells[j])
    &&& forall|h: Hex| cells.contains(h) <==> origin.distance(h) <= radius
}

/// The cells that `hex2d` puts on the straight line between two cells, both
/// ends included.
pub uninterp spec fn hex_line(from: Hex, to: Hex) -> Seq<Hex>;

/// The pairs of cells that `hex2d` puts on the straight line between two
/// cells when it reports both sides of a straddled edge. Where the line
/// runs through the inside of a cell, both members of the pair are that cell.
pub uninterp spec fn hex_fat_line(from: Hex, to: Hex) -> Seq<(Hex, Hex)>;

/// Calls `hex2d::Coordinate::ring_iter` with the spin `CW(XY)`.
///
/// Trusted: for a radius that is not negative the iterator starts
/// `radius` steps north-east of the origin and yields `radius` cells along
/// each of six sides, turning by one direction after each side; for radius
/// 0 it yields the origin alone.
#[verifier::external_body]
fn hex2d_ring(origin: Coordinate, radius: i32) -> (cells: Vec<Coordinate>)
    requires
        origin@.in_reach(),
        0 <= radius <= MAX_SPAN,
    ensures
        hexes(cells@) == ring_cells(origin@, radius as int),
{
    hex2d::Coordinate::new(origin.q, origin.r)
        .ring_iter(radius, hex2d::Spin::CW(hex2d::Direction::XY))
        .map(|c| Coordinate { q: c.x, r: c.y })
        .collect()
}

/// Calls `hex2d::Coordinate::range_iter`.
///
/// Trusted: the iterator walks the columns `q - radius ..= q + radius` in
/// increasing order and, within each column, the cells within `radius` of
/// the origin by increasing `r`.
#[verifier::external_body]
fn hex2d_range(origin: Coordinate, radius: i32) -> (cells: Vec<Coordinate>)
    requires
        origin@.in_reach(),
        0 <= radius <= MAX_SPAN,
    ensures
        is_range_of(hexes(cells@), origin@, radius as int),
{
    hex2d::Coordinate::new(origin.q, origin.r)
        .range_iter(radius)
        .map(|c| Coordinate { q: c.x, r: c.y })
        .collect()
}

/// Calls `hex2d::Coordinate::line_to_iter`.
///
/// Trusted: the cells depend on the two ends alone, and the iterator yields
/// one cell for each of the steps `0 ..= n`, where `n` is the distance
/// between the ends.
#[verifier::external_body]
fn hex2d_line(from: Coordinate, to: Coordinate) -> (cells: Vec<Coordinate>)
    requires
        from@.within(2 * REACH),
        to@.within(2 * REACH),
    ensures
        hexes(cells@) == hex_line(from@, to@),
        cells@.len() == from@.distance(to@) + 1,
{
    hex2d::Coordinate::new(from.q, from.r)
        .line_to_iter(hex2d::Coordinate::new(to.q, to.r))
        .map(|c| Coordinate { q: c.x, r: c.y })
        .collect()
}

/// Calls `hex2d::Coordinate::line_to_with_edge_detection_iter`.
///
/// Trusted: the pairs depend on the two ends alone.
#[verifier::external_body]
fn hex2d_fat_line(from: Coordinate, to: Coordinate) -> (pairs: Vec<(Coordinate, Coordinate)>)
    requires
        from@.within(2 * REACH),
        to@.within(2 * REACH),
    ensures
        hex_pairs(pairs@) == hex_fat_line(from@, to@),
{
    hex2d::Coordinate::new(from.q, from.r)
        .line_to_with_edge_detection_iter(hex2d::Coordinate::new(to.q, to.r))
        .map(|(a, b)| (Coordinate { q: a.x, r: a.y }, Coordinate { q: b.x, r: b.y }))
        .collect()
}

impl Coordinate {
    pub fn new(q: i32, r: i32) -> (c: Self)
        ensures
            c.q == q,
            c.r == r,
    {
        Coordinate { q, r }
    }

    /// The neighboring coordinate in direction `d`.
    pub fn step(self, d: Direction) -> (c: Self)
        requires
            self@.step(d).representable(),
        ensures
            c@ == self@.step(d),
    {
        let (dq, dr) = d.offset();
        Coordinate { q: self.q + dq, r: self.r + dr }
    }

    /// The neighboring coordinate in direction `d`, unless a component
    /// would leave the range of `i32`.
    pub fn checked_step(self, d: Direction) -> (c: Option<Self>)
        ensures
            c is Some <==> self@.step(d).representable(),
            c is Some ==> c.unwrap()@ == self@.step(d),
    {
        let (dq, dr) = d.offset();
        let q: i64 = self.q as i64 + dq as i64;
        let r: i64 = self.r as i64 + dr as i64;
        if q < i32::MIN as i64 || q > i32::MAX as i64 || r < i32::MIN as i64 || r > i32::MAX as i64 {
            None
        } else {
            Some(Coordinate { q: q as i32, r: r as i32 })
        }
    }

    /// The six neighbors, clockwise from north.
    pub fn neighbors(self) -> (n: [Self; 6])
        requires
            i32::MIN < self.q < i32::MAX,
            i32::MIN < self.r < i32::MAX,
        ensures
            forall|i: int| 0 <= i < 6 ==> (#[trigger] n[i])@ == self@.step(Direction::nth(i)),
    {
        [
            self.step(Direction::North),
            self.step(Direction::NorthEast),
            self.step(Direction::SouthEast),
            self.step(Direction::South),
            self.step(Direction::SouthWest),
            self.step(Direction::NorthWest),
        ]
    }

    /// Hex distance, for coordinates of any magnitude.
    pub fn wide_distance(self, other: Self) -> (d: i64)
        ensures
            d == self@.distance(other@),
    {
        let dq: i64 = self.q as i64 - other.q as i64;
        let dr: i64 = self.r as i64 - other.r as i64;
        let ds: i64 = -dq - dr;
        let aq: i64 = if dq < 0 { -dq } else { dq };
        let ar: i64 = if dr < 0 { -dr } else { dr };
        let az: i64 = if ds < 0 { -ds } else { ds };
        if aq >= ar && aq >= az {
            aq
        } else if ar >= az {
            ar
        } else {
            az
        }
    }

    /// Hex distance.
    pub fn distance(self, other: Self) -> (d: i32)
        requires
            self@.distance(other@) <= i32::MAX,
        ensures
            d == self@.distance(other@),
    {
        self.wide_distance(other) as i32
    }

    /// All coordinates within `radius` of `self`, by increasing `q` and
    /// then increasing `r`. Empty for a negative radius.
    pub fn range(self, radius: i32) -> (cells: Vec<Self>)
        requires
            self@.in_reach(),
            radius <= MAX_SPAN,
        ensures
            is_range_of(hexes(cells@), self@, radius as int),
    {
        if radius < 0 {
            let cells: Vec<Self> = Vec::new();
            assert forall|h: Hex| hexes(cells@).contains(h) <==> self@.distance(h) <= radius by {
                assert(hexes(cells@).len() == 0);
            }
            cells
        } else {
            hex2d_range(self, radius)
        }
    }

    /// The coordinates at exactly distance `radius` from `self`, in
    /// rotational order from the north-east corner. Empty for a negative
    /// radius.
    pub fn ring(self, radius: i32) -> (cells: Vec<Self>)
        requires
            self@.in_reach(),
            radius <= MAX_SPAN,
        ensures
            hexes(cells@) == ring_cells(self@, radius as int),
    {
        if radius < 0 {
            let cells: Vec<Self> = Vec::new();
            assert(hexes(cells@) =~= Seq::<Hex>::empty());
            cells
        } else {
            hex2d_ring(self, radius)
        }
    }

    /// The coordinates on the straight line from `self` to `other`, both
    /// included.
    pub fn line_to(self, other: Self) -> (cells: Vec<Self>)
        requires
            self@.within(2 * REACH),
            other@.within(2 * REACH),
        ensures
            hexes(cells@) == hex_line(self@, other@),
            cells@.len() == self@.distance(other@) + 1,
    {
        hex2d_line(self, other)
    }

    /// The straight line from `self` to `other` as pairs of cells: where the
    /// line runs along the edge between two cells, the pair holds both.
    pub fn fat_line_to(self, other: Self) -> (pairs: Vec<(Self, Self)>)
        requires
            self@.within(2 * REACH),
            other@.within(2 * REACH),
        ensures
            hex_pairs(pairs@) == hex_fat_line(self@, other@),
    {
        hex2d_fat_line(self, other)
    }

    /// The coordinate at the given column and row of the odd-q rectangle.
    pub fn from_offset(col: i32, row: i32) -> (c: Self)
        requires
            -REACH <= col <= REACH,
            -REACH <= row <= REACH,
        ensures
            c@ == Hex::from_offset(col as int, row as int),
    {
        Coordinate { q: col, r: row - half_floor(col) }
    }

    /// Column of the coordinate in the odd-q rectangle.
    pub fn col(self) -> (x: i32)
        ensures
            x == self@.col(),
    {
        self.q
    }

    /// Row of the coordinate in the odd-q rectangle.
    pub fn row(self) -> (y: i64)
        ensures
            y == self@.row(),
    {
        self.r as i64 + half_floor(self.q) as i64
    }

    /// The coordinate stored at `idx` in a row-major rectangle of the given
    /// width.
    pub fn from_index(idx: usize, width: i32) -> (c: Self)
        requires
            width > 0,
            idx / (width as usize) <= i32::MAX,
        ensures
            c@ == Hex::at_index(idx as int, width as int),
    {
        let w: usize = width as usize;
        let x: i32 = (idx % w) as i32;
        let y: i32 = (idx / w) as i32;
        Coordinate { q: x, r: y - half_floor(x) }
    }

    /// Position of the coordinate in a row-major rectangle of the given
    /// width.
    pub fn to_index(self, width: i32) -> (idx: usize)
        requires
            width >= 0,
            self@.col() >= 0,
            self@.row() >= 0,
            self@.index(width as int) <= usize::MAX,
        ensures
            idx == self@.index(width as int),
    {
        let y: i64 = self.row();
        assert(y * width <= y * width + self.q);
        assert(0 <= y * (width as i64)) by (nonlinear_arith)
            requires
                0 <= y,
                0 <= width,
        ;
        (y as usize) * (width as usize) + (self.q as usize)
    }
}

impl core::ops::Add<Direction> for Coordinate {
    type Output = Coordinate;

    /// The neighboring coordinate in the given direction.
    fn add(self, direction: Direction) -> (c: Coordinate) {
        self.step(direction)
    }
}

impl vstd::std_specs::ops::AddSpecImpl<Direction> for Coordinate {
    open spec fn obeys_add_spec() -> bool {
        true
    }

    open spec fn add_req(self, direction: Direction) -> bool {
        self@.step(direction).representable()
    }

    open spec fn add_spec(self, direction: Direction) -> Coordinate {
        Coordinate { q: (self.q + direction.dq()) as i32, r: (self.r + direction.dr()) as i32 }
    }
}

/// Hex distance is symmetric.
pub proof fn lemma_distance_symmetric(a: Hex, b: Hex)
    ensures
        a.distance(b) == b.distance(a),
{
}

/// A cell is at distance 0 from itself, and from no other cell.
pub proof fn lemma_distance_zero(a: Hex, b: Hex)
    ensures
        a.distance(a) == 0,
        a.distance(b) >= 0,
        a.distance(b) == 0 <==> a == b,
{
}

/// Hex distance satisfies the triangle inequality.
pub proof fn lemma_distance_triangle(a: Hex, b: Hex, c: Hex)
    ensures
        a.distance(c) <= a.distance(b) + b.distance(c),
{
}

/// The six directions lead to the six cells at distance 1, each to another.
pub proof fn lemma_neighbors_partition(c: Hex, other: Hex)
    ensures
        c.is_neighbor(other) <==> c.distance(other) == 1,
        forall|d1: Direction, d2: Direction| c.step(d1) == c.step(d2) ==> d1 == d2,
{
    reveal(Hex::is_neighbor);
    if c.distance(other) == 1 {
        let dq = other.q - c.q;
        let dr = other.r - c.r;
        let d = if dq == 0 && dr == -1 {
            Direction::North
        } else if dq == 1 && dr == -1 {
            Direction::NorthEast
        } else if dq == 1 && dr == 0 {
            Direction::SouthEast
        } else if dq == 0 && dr == 1 {
            Direction::South
        } else if dq == -1 && dr == 1 {
            Direction::SouthWest
        } else {
            Direction::NorthWest
        };
        assert(c.step(d) == other);
    }
    if c.is_neighbor(other) {
        let d = choose|d: Direction| c.step(d) == other;
        assert(c.step(d) == other);
    }
}

/// A step leads to a neighbor.
pub proof fn lemma_step_is_neighbor(c: Hex, d: Direction)
    ensures
        c.is_neighbor(c.step(d)),
{
    reveal(Hex::is_neighbor);
}

/// A neighbor is one step away in some direction.
pub proof fn lemma_neighbor_direction(c: Hex, other: Hex) -> (d: Direction)
    requires
        c.is_neighbor(other),
    ensures
        c.step(d) == other,
{
    reveal(Hex::is_neighbor);
    choose|d: Direction| c.step(d) == other
}

/// Column and row determine the cell, and every column and row is that of a
/// cell.
pub proof fn lemma_offset_roundtrip(h: Hex, col: int, row: int)
    ensures
        Hex::from_offset(h.col(), h.row()) == h,
        Hex::from_offset(col, row).col() == col,
        Hex::from_offset(col, row).row() == row,
{
}

/// Within a rectangle of positive width, the index of a cell and the cell
/// at an index are inverse to each other.
pub proof fn lemma_index_roundtrip(h: Hex, idx: int, width: int)
    requires
        width > 0,
    ensures
        0 <= h.col() < width ==> Hex::at_index(h.index(width), width) == h,
        0 <= idx ==> Hex::at_index(idx, width).index(width) == idx,
        0 <= idx ==> 0 <= Hex::at_index(idx, width).col() < width,
        0 <= idx ==> Hex::at_index(idx, width).row() == idx / width,
{
    if 0 <= h.col() < width {
        lemma_div_mod_of_sum(h.row(), h.col(), width);
    }
    if 0 <= idx {
        vstd::arithmetic::div_mod::lemma_fundamental_div_mod(idx, width);
        vstd::arithmetic::div_mod::lemma_mod_bound(idx, width);
        assert((idx / width) * width == width * (idx / width)) by (nonlinear_arith);
    }
}

/// `(row * width + col)` divides back into `row` and `col`.
pub proof fn lemma_div_mod_of_sum(row: int, col: int, width: int)
    requires
        0 <= col < width,
    ensures
        (row * width + col) / width == row,
        (row * width + col) % width == col,
{
    vstd::arithmetic::div_mod::lemma_fundamental_div_mod_converse(row * width + col, width, row, col);
}

/// The quotient and remainder that place index `k` on a ring.
pub proof fn lemma_ring_position(radius: int, k: int)
    requires
        radius > 0,
        0 <= k < 6 * radius,
    ensures
        0 <= k / radius < 6,
        0 <= k % radius < radius,
        k == (k / radius) * radius + k % radius,
{
    vstd::arithmetic::div_mod::lemma_fundamental_div_mod(k, radius);
    vstd::arithmetic::div_mod::lemma_mod_bound(k, radius);
    let s = k / radius;
    assert(radius * s == s * radius) by (nonlinear_arith);
    assert(s >= 0 && s < 6) by (nonlinear_arith)
        requires
            radius > 0,
            0 <= k < 6 * radius,
            k == s * radius + k % radius,
            0 <= k % radius < radius,
    ;
}

/// A number of steps times the change of one step.
pub proof fn lemma_steps(n: int, unit: int)
    requires
        -1 <= unit <= 1,
    ensures
        unit == 1 ==> n * unit == n,
        unit == 0 ==> n * unit == 0,
        unit == -1 ==> n * unit == -n,
{
    assert(n * 1 == n && n * 0 == 0 && n * (-1) == -n) by (nonlinear_arith);
}

/// The cell `j` steps along the given side of a ring, by its components.
pub open spec fn ring_place(origin: Hex, radius: int, side: int, j: int) -> Hex {
    if side == 0 {
        Hex { q: origin.q + radius - j, r: origin.r - radius }
    } else if side == 1 {
        Hex { q: origin.q - j, r: origin.r - radius + j }
    } else if side == 2 {
        Hex { q: origin.q - radius, r: origin.r + j }
    } else if side == 3 {
        Hex { q: origin.q - radius + j, r: origin.r + radius }
    } else if side == 4 {
        Hex { q: origin.q + j, r: origin.r + radius - j }
    } else {
        Hex { q: origin.q + radius, r: origin.r - j }
    }
}

/// The components of the `k`-th cell of a ring.
pub proof fn lemma_ring_cell_place(origin: Hex, radius: int, k: int)
    requires
        radius > 0,
        0 <= k < 6 * radius,
    ensures
        0 <= k / radius < 6,
        0 <= k % radius < radius,
        k == (k / radius) * radius + k % radius,
        ring_cell(origin, radius, k) == ring_place(origin, radius, k / radius, k % radius),
{
    lemma_ring_position(radius, k);
    let side = k / radius;
    let j = k % radius;
    let out = ring_corner(side);
    let along = ring_side(side);
    lemma_steps(radius, out.dq());
    lemma_steps(radius, out.dr());
    lemma_steps(j, along.dq());
    lemma_steps(j, along.dr());
    let corner = origin.walk(out, radius);
    assert(corner.q == origin.q + radius * out.dq());
    assert(corner.r == origin.r + radius * out.dr());
    let cell = corner.walk(along, j);
    assert(cell.q == corner.q + j * along.dq());
    assert(cell.r == corner.r + j * along.dr());
    assert(cell == ring_cell(origin, radius, k));
}

/// Every cell of a ring is at the ring's radius from the center.
pub proof fn lemma_ring_cell_distance(origin: Hex, radius: int, k: int)
    requires
        radius > 0,
        0 <= k < 6 * radius,
    ensures
        origin.distance(ring_cell(origin, radius, k)) == radius,
{
    lemma_ring_cell_place(origin, radius, k);
}

/// Two positions on a ring hold the same cell only if they are the same
/// position.
pub proof fn lemma_ring_cell_injective(origin: Hex, radius: int, k1: int, k2: int)
    requires
        radius > 0,
        0 <= k1 < 6 * radius,
        0 <= k2 < 6 * radius,
        ring_cell(origin, radius, k1) == ring_cell(origin, radius, k2),
    ensures
        k1 == k2,
{
    lemma_ring_cell_place(origin, radius, k1);
    lemma_ring_cell_place(origin, radius, k2);
    let s1 = k1 / radius;
    let s2 = k2 / radius;
    assert(s1 == s2);
    assert(k1 % radius == k2 % radius);
}

/// A ring of positive radius `r` has exactly `6 r` cells, all at distance
/// `r` from the center, and holds no cell twice.
pub proof fn lemma_ring_is_circle(origin: Hex, radius: int)
    requires
        radius > 0,
    ensures
        ring_cells(origin, radius).len() == 6 * radius,
        forall|k: int| 0 <= k < 6 * radius ==> origin.distance(#[trigger] ring_cells(origin, radius)[k]) == radius,
        ring_cells(origin, radius).no_duplicates(),
{
    let ring = ring_cells(origin, radius);
    assert forall|k: int| 0 <= k < 6 * radius implies origin.distance(#[trigger] ring[k]) == radius by {
        lemma_ring_cell_distance(origin, radius, k);
    }
    assert forall|i: int, j: int| 0 <= i < ring.len() && 0 <= j < ring.len() && i != j implies ring[i] != ring[j] by {
        if ring[i] == ring[j] {
            lemma_ring_cell_injective(origin, radius, i, j);
        }
    }
}

} // verus!
