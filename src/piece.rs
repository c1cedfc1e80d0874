//! Cell colours, piece kinds and the geometry of a falling piece.
use vstd::prelude::*;

verus! {

/// Number of columns of the playfield.
pub const TETRIS_FIELD_DEFAULT_WIDTH: u32 = 10;

/// Number of rows of the playfield; row 0 is the bottom row.
pub const TETRIS_FIELD_DEFAULT_HEIGHT: u32 = 20;

/// Content of one cell of the playfield: empty, or the colour of a piece.
#[derive(Clone, Copy, Debug, PartialEq, Eq, Structural, Hash)]
pub enum CellStatus {
    Empty,
    Cyan,
    Yellow,
    Purple,
    Green,
    Red,
    Blue,
    Orange,
}

/// The seven piece shapes.
#[derive(Clone, Copy, Debug, PartialEq, Eq, Structural, Hash)]
pub enum Tetromino {
    Line,
    O,
    L,
    J,
    Z,
    S,
    T,
}

/// The seven kinds in their fixed reference order.
pub open spec fn all_kinds() -> Seq<Tetromino> {
    seq![
        Tetromino::Line,
        Tetromino::O,
        Tetromino::L,
        Tetromino::J,
        Tetromino::Z,
        Tetromino::S,
        Tetromino::T,
    ]
}

impl Tetromino {
    /// All seven kinds, each once.
    pub fn all_tetromino_array() -> (r: [Tetromino; 7])
        ensures
            r@ == all_kinds(),
    {
        let r = [
            Tetromino::Line,
            Tetromino::O,
            Tetromino::L,
            Tetromino::J,
            Tetromino::Z,
            Tetromino::S,
            Tetromino::T,
        ];
        assert(r@ =~= all_kinds());
        r
    }
}


/// The colour in which each kind is drawn.
pub open spec fn color_of(k: Tetromino) -> CellStatus {
    match k {
        Tetromino::O => CellStatus::Yellow,
        Tetromino::Line => CellStatus::Cyan,
        Tetromino::T => CellStatus::Purple,
        Tetromino::L => CellStatus::Orange,
        Tetromino::J => CellStatus::Blue,
        Tetromino::S => CellStatus::Green,
        Tetromino::Z => CellStatus::Red,
    }
}

/// An integer grid position.
#[derive(Clone, Copy, Debug, PartialEq, Eq, Structural)]
pub struct Pos2 {
    pub x: i32,
    pub y: i32,
}

impl Pos2 {
    pub fn new(x: i32, y: i32) -> (r: Pos2)
        ensures
            r.x == x,
            r.y == y,
    {
        Pos2 { x, y }
    }
}

/// Mathematical picture of a piece: its four cells, its rotation pivot
/// counted in half cells (so that a pivot between two cells is an integer
/// here), its kind and its colour.
pub struct PieceView {
    pub cells: Seq<(int, int)>,
    pub pivot2: (int, int),
    pub kind: Tetromino,
    pub color: CellStatus,
}

/// A piece placed in grid coordinates. `rotation_center` holds the pivot
/// doubled: the pivot (1.5, 0) is stored as (3, 0).
#[derive(Clone, Copy, Debug)]
pub struct PhysicalTetromino {
    pub coords: [Pos2; 4],
    pub rotation_center: Pos2,
    pub tetromino: Tetromino,
    pub color: CellStatus,
}

impl View for PhysicalTetromino {
    type V = PieceView;

    open spec fn view(&self) -> PieceView {
        PieceView {
            cells: self.coords@.map_values(|p: Pos2| (p.x as int, p.y as int)),
            pivot2: (self.rotation_center.x as int, self.rotation_center.y as int),
            kind: self.tetromino,
            color: self.color,
        }
    }
}

/// The four cells of each kind in its own frame.
pub open spec fn base_cells(k: Tetromino) -> Seq<(int, int)> {
    match k {
        Tetromino::Line => seq![(0, 0), (1, 0), (2, 0), (3, 0)],
        Tetromino::O => seq![(0, 0), (0, 1), (1, 0), (1, 1)],
        Tetromino::J => seq![(0, 0), (0, 1), (1, 0), (2, 0)],
        Tetromino::L => seq![(0, 0), (1, 0), (2, 0), (2, 1)],
        Tetromino::S => seq![(0, 0), (1, 0), (1, 1), (2, 1)],
        Tetromino::Z => seq![(0, 1), (1, 1), (1, 0), (2, 0)],
        Tetromino::T => seq![(0, 0), (1, 0), (2, 0), (1, 1)],
    }
}

/// The pivot of each kind in its own frame, doubled.
pub open spec fn base_pivot2(k: Tetromino) -> (int, int) {
    match k {
        Tetromino::Line => (3, 0),
        Tetromino::O => (1, 1),
        Tetromino::T => (2, 0),
        _ => (2, 1),
    }
}

pub open spec fn base_piece(k: Tetromino, color: CellStatus) -> PieceView {
    PieceView { cells: base_cells(k), pivot2: base_pivot2(k), kind: k, color }
}

/// The piece moved by `dx` columns and `dy` rows, pivot included.
pub open spec fn shifted(m: PieceView, dx: int, dy: int) -> PieceView {
    PieceView {
        cells: m.cells.map_values(|c: (int, int)| (c.0 + dx, c.1 + dy)),
        pivot2: (m.pivot2.0 + 2 * dx, m.pivot2.1 + 2 * dy),
        ..m
    }
}


/// A one-step translation of a piece.
#[derive(Clone, Copy, Debug, PartialEq, Eq, Structural)]
pub enum Direction {
    Left,
    Right,
    Down,
    Up,
}

/// A quarter turn.
#[derive(Clone, Copy, Debug, PartialEq, Eq, Structural)]
pub enum SpinDirection {
    Clockwise,
    CounterClockwise,
}

/// Small enough that translations and rotations stay far from `i32` limits.
pub open spec fn bounded(m: PieceView) -> bool {
    &&& m.cells.len() == 4
    &&& forall|i: int|
        #![trigger m.cells[i]]
        0 <= i < 4 ==> -1000 <= m.cells[i].0 <= 1000 && -1000 <= m.cells[i].1 <= 1000
    &&& -1000 <= m.pivot2.0 <= 1000
    &&& -1000 <= m.pivot2.1 <= 1000
}

/// No cell has a column below `dx` or a row below `dy`.
pub open spec fn all_at_least(m: PieceView, dx: int, dy: int) -> bool {
    forall|i: int| #![trigger m.cells[i]] 0 <= i < 4 ==> m.cells[i].0 >= dx && m.cells[i].1 >= dy
}

/// Every cell lies left of column `w`.
pub open spec fn all_left_of(m: PieceView, w: int) -> bool {
    forall|i: int| #![trigger m.cells[i]] 0 <= i < 4 ==> m.cells[i].0 < w
}

/// The one-step translation in `dir`, or `None` where it is refused: left
/// and down refuse to take a coordinate below zero, right refuses to reach
/// the width of the field, up is never refused.
pub open spec fn moved(m: PieceView, dir: Direction) -> Option<PieceView> {
    match dir {
        Direction::Left => if all_at_least(m, 1, 0) {
            Some(shifted(m, -1, 0))
        } else {
            None
        },
        Direction::Down => if all_at_least(m, 0, 1) {
            Some(shifted(m, 0, -1))
        } else {
            None
        },
        Direction::Right => if all_left_of(shifted(m, 1, 0), TETRIS_FIELD_DEFAULT_WIDTH as int) {
            Some(shifted(m, 1, 0))
        } else {
            None
        },
        Direction::Up => Some(shifted(m, 0, 1)),
    }
}

/// Half of `v`, truncated toward zero.
pub open spec fn trunc_half(v: int) -> int {
    if v >= 0 {
        v / 2
    } else {
        -((-v) / 2)
    }
}

/// A cell turned a quarter about the doubled pivot `p2`: the offset
/// (x, y) becomes (y, -x) clockwise and (-y, x) counter-clockwise, and the
/// exact result is truncated toward zero.
pub open spec fn spun_cell(c: (int, int), p2: (int, int), dir: SpinDirection) -> (int, int) {
    let u = 2 * c.0 - p2.0;
    let v = 2 * c.1 - p2.1;
    match dir {
        SpinDirection::Clockwise => (trunc_half(v + p2.0), trunc_half(-u + p2.1)),
        SpinDirection::CounterClockwise => (trunc_half(-v + p2.0), trunc_half(u + p2.1)),
    }
}

/// The piece turned a quarter about its pivot, which stays where it is.
pub open spec fn spun(m: PieceView, dir: SpinDirection) -> PieceView {
    PieceView { cells: m.cells.map_values(|c: (int, int)| spun_cell(c, m.pivot2, dir)), ..m }
}

/// The four cells of the view are the four stored coordinates.
pub proof fn lemma_view_cells(t: PhysicalTetromino)
    ensures
        t@.cells.len() == 4,
        t@.cells[0] == (t.coords[0].x as int, t.coords[0].y as int),
        t@.cells[1] == (t.coords[1].x as int, t.coords[1].y as int),
        t@.cells[2] == (t.coords[2].x as int, t.coords[2].y as int),
        t@.cells[3] == (t.coords[3].x as int, t.coords[3].y as int),
{
}

fn half_toward_zero(v: i32) -> (r: i32)
    requires
        -100_000 <= v <= 100_000,
    ensures
        r == trunc_half(v as int),
{
    if v >= 0 {
        v / 2
    } else {
        -((-v) / 2)
    }
}

fn spin_pos(p: Pos2, c: Pos2, dir: SpinDirection) -> (r: Pos2)
    requires
        -1000 <= p.x <= 1000,
        -1000 <= p.y <= 1000,
        -1000 <= c.x <= 1000,
        -1000 <= c.y <= 1000,
    ensures
        (r.x as int, r.y as int) == spun_cell((p.x as int, p.y as int), (c.x as int, c.y as int), dir),
{
    let u = 2 * p.x - c.x;
    let v = 2 * p.y - c.y;
    match dir {
        SpinDirection::Clockwise => Pos2 { x: half_toward_zero(v + c.x), y: half_toward_zero(-u + c.y) },
        SpinDirection::CounterClockwise => Pos2 {
            x: half_toward_zero(-v + c.x),
            y: half_toward_zero(u + c.y),
        },
    }
}

impl PhysicalTetromino {
    /// The piece of kind `tetromino` in its own frame, drawn in `color`.
    pub fn new(tetromino: Tetromino, color: CellStatus) -> (r: PhysicalTetromino)
        ensures
            r@ == base_piece(tetromino, color),
    {
        let (coords, rotation_center) = match tetromino {
            Tetromino::Line => (
                [Pos2::new(0, 0), Pos2::new(1, 0), Pos2::new(2, 0), Pos2::new(3, 0)],
                Pos2::new(3, 0),
            ),
            Tetromino::O => (
                [Pos2::new(0, 0), Pos2::new(0, 1), Pos2::new(1, 0), Pos2::new(1, 1)],
                Pos2::new(1, 1),
            ),
            Tetromino::J => (
                [Pos2::new(0, 0), Pos2::new(0, 1), Pos2::new(1, 0), Pos2::new(2, 0)],
                Pos2::new(2, 1),
            ),
            Tetromino::L => (
                [Pos2::new(0, 0), Pos2::new(1, 0), Pos2::new(2, 0), Pos2::new(2, 1)],
                Pos2::new(2, 1),
            ),
            Tetromino::S => (
                [Pos2::new(0, 0), Pos2::new(1, 0), Pos2::new(1, 1), Pos2::new(2, 1)],
                Pos2::new(2, 1),
            ),
            Tetromino::Z => (
                [Pos2::new(0, 1), Pos2::new(1, 1), Pos2::new(1, 0), Pos2::new(2, 0)],
                Pos2::new(2, 1),
            ),
            Tetromino::T => (
                [Pos2::new(0, 0), Pos2::new(1, 0), Pos2::new(2, 0), Pos2::new(1, 1)],
                Pos2::new(2, 0),
            ),
        };
        let r = PhysicalTetromino { coords, rotation_center, tetromino, color };
        assert(r@.cells =~= base_cells(tetromino));
        r
    }

    /// The piece moved by `d`, pivot included.
    pub fn plus(self, d: Pos2) -> (r: PhysicalTetromino)
        requires
            bounded(self@),
            -100 <= d.x <= 100,
            -100 <= d.y <= 100,
        ensures
            r@ == shifted(self@, d.x as int, d.y as int),
    {
        let c = self.coords;
        assert(forall|i: int| 0 <= i < 4 ==> self@.cells[i] == (c@[i].x as int, c@[i].y as int));
        assert(self@.cells[0].0 == c[0].x && self@.cells[1].0 == c[1].x);
        assert(self@.cells[2].0 == c[2].x && self@.cells[3].0 == c[3].x);
        let r = PhysicalTetromino {
            coords: [
                Pos2::new(c[0].x + d.x, c[0].y + d.y),
                Pos2::new(c[1].x + d.x, c[1].y + d.y),
                Pos2::new(c[2].x + d.x, c[2].y + d.y),
                Pos2::new(c[3].x + d.x, c[3].y + d.y),
            ],
            rotation_center: Pos2::new(
                self.rotation_center.x + 2 * d.x,
                self.rotation_center.y + 2 * d.y,
            ),
            ..self
        };
        assert(r@.cells =~= shifted(self@, d.x as int, d.y as int).cells);
        r
    }

    /// The piece moved back by `d`, refused where a coordinate of a cell
    /// would fall below zero.
    pub fn minus(self, d: Pos2) -> (r: Result<PhysicalTetromino, ()>)
        requires
            bounded(self@),
            0 <= d.x <= 1,
            0 <= d.y <= 1,
        ensures
            r is Ok <==> all_at_least(self@, d.x as int, d.y as int),
            r is Ok ==> r->Ok_0@ == shifted(self@, -d.x as int, -d.y as int),
    {
        let c = self.coords;
        let mut i: usize = 0;
        while i < 4
            invariant
                0 <= i <= 4,
                c == self.coords,
                forall|j: int| 0 <= j < i ==> c@[j].x >= d.x && c@[j].y >= d.y,
            decreases 4 - i,
        {
            if c[i].x < d.x || c[i].y < d.y {
                assert(c[i as int] == c@[i as int]);
                assert(self@.cells[i as int] == (c@[i as int].x as int, c@[i as int].y as int));
                assert(self@.cells[i as int].0 < d.x || self@.cells[i as int].1 < d.y);
                return Err(());
            }
            i = i + 1;
        }
        assert(forall|j: int| 0 <= j < 4 ==> self@.cells[j] == (c@[j].x as int, c@[j].y as int));
        Ok(self.plus(Pos2::new(-d.x, -d.y)))
    }

    /// The one-step translation of the piece in `dir` (see [`moved`]).
    pub fn moved(self, dir: Direction) -> (r: Result<PhysicalTetromino, ()>)
        requires
            bounded(self@),
        ensures
            match moved(self@, dir) {
                Some(m) => r is Ok && r->Ok_0@ == m,
                None => r is Err,
            },
    {
        match dir {
            Direction::Left => self.minus(Pos2::new(1, 0)),
            Direction::Down => self.minus(Pos2::new(0, 1)),
            Direction::Up => Ok(self.plus(Pos2::new(0, 1))),
            Direction::Right => {
                let t = self.plus(Pos2::new(1, 0));
                let w = TETRIS_FIELD_DEFAULT_WIDTH as i32;
                let c = t.coords;
                proof {
                    lemma_view_cells(t);
                }
                if c[0].x >= w || c[1].x >= w || c[2].x >= w || c[3].x >= w {
                    assert(!all_left_of(t@, w as int));
                    Err(())
                } else {
                    Ok(t)
                }
            },
        }
    }

    /// Turns the piece a quarter about its pivot (see [`spun`]).
    pub fn spin(&mut self, spin_direction: SpinDirection)
        requires
            bounded(old(self)@),
        ensures
            final(self)@ == spun(old(self)@, spin_direction),
    {
        let c = self.coords;
        let p = self.rotation_center;
        proof {
            lemma_view_cells(*self);
        }
        self.coords = [
            spin_pos(c[0], p, spin_direction),
            spin_pos(c[1], p, spin_direction),
            spin_pos(c[2], p, spin_direction),
            spin_pos(c[3], p, spin_direction),
        ];
        assert(self@.cells =~= spun(old(self)@, spin_direction).cells);
    }
}

/// The piece of kind `tetromino` in its own frame, in that kind's colour.
pub fn tetromino_to_physical(tetromino: Tetromino) -> (r: PhysicalTetromino)
    ensures
        r@ == base_piece(tetromino, color_of(tetromino)),
{
    let color = match tetromino {
        Tetromino::O => CellStatus::Yellow,
        Tetromino::Line => CellStatus::Cyan,
        Tetromino::T => CellStatus::Purple,
        Tetromino::L => CellStatus::Orange,
        Tetromino::J => CellStatus::Blue,
        Tetromino::S => CellStatus::Green,
        Tetromino::Z => CellStatus::Red,
    };
    PhysicalTetromino::new(tetromino, color)
}

/// No value that a clockwise quarter turn of `m` truncates is negative,
/// so truncation there rounds down.
pub open spec fn turns_exactly(m: PieceView) -> bool {
    forall|i: int|
        #![trigger m.cells[i]]
        0 <= i < 4 ==> 2 * m.cells[i].1 - m.pivot2.1 + m.pivot2.0 >= 0 && m.pivot2.0 + m.pivot2.1
            - 2 * m.cells[i].0 >= 0
}

proof fn lemma_turn_cell(c: (int, int), a: int, b: int)
    requires
        2 * c.1 - b + a >= 0,
        a + b - 2 * c.0 >= 0,
    ensures
        spun_cell(c, (a, b), SpinDirection::Clockwise) == (
            c.1 + (a - b - (a + b) % 2) / 2,
            (a + b - (a + b) % 2) / 2 - c.0,
        ),
{
    let r = (a + b) % 2;
    let d = (a - b - r) / 2;
    let e = (a + b - r) / 2;
    assert(a + b == 2 * e + r);
    assert(a - b - r == 2 * d);
    assert(2 * c.1 - b + a == 2 * (c.1 + d) + r);
    assert(a + b - 2 * c.0 == 2 * (e - c.0) + r);
}

/// Four clockwise quarter turns bring a piece back to where it started,
/// as long as no turn truncates a negative value (for those, truncation
/// toward zero rounds up and the turns no longer undo each other).
pub proof fn lemma_four_clockwise_turns(m: PieceView)
    requires
        m.cells.len() == 4,
        turns_exactly(m),
        turns_exactly(spun(m, SpinDirection::Clockwise)),
        turns_exactly(spun(spun(m, SpinDirection::Clockwise), SpinDirection::Clockwise)),
        turns_exactly(
            spun(
                spun(spun(m, SpinDirection::Clockwise), SpinDirection::Clockwise),
                SpinDirection::Clockwise,
            ),
        ),
    ensures
        spun(
            spun(
                spun(spun(m, SpinDirection::Clockwise), SpinDirection::Clockwise),
                SpinDirection::Clockwise,
            ),
            SpinDirection::Clockwise,
        ) == m,
{
    let cw = SpinDirection::Clockwise;
    let m1 = spun(m, cw);
    let m2 = spun(m1, cw);
    let m3 = spun(m2, cw);
    let m4 = spun(m3, cw);
    let a = m.pivot2.0;
    let b = m.pivot2.1;
    let d = (a - b - (a + b) % 2) / 2;
    let e = (a + b - (a + b) % 2) / 2;
    assert forall|i: int| 0 <= i < 4 implies m4.cells[i] == m.cells[i] by {
        assert(m.cells[i] == m.cells[i] && m1.cells[i] == m1.cells[i] && m2.cells[i] == m2.cells[i]
            && m3.cells[i] == m3.cells[i]);
        lemma_turn_cell(m.cells[i], a, b);
        lemma_turn_cell(m1.cells[i], a, b);
        lemma_turn_cell(m2.cells[i], a, b);
        lemma_turn_cell(m3.cells[i], a, b);
    }
    assert(m4.cells =~= m.cells);
}

} // verus!
