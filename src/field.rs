//! The playfield: a fixed grid of cells, bounds-checked access, placing a
//! piece on it, and finding and collapsing full rows.
use crate::piece::{
    lemma_view_cells, CellStatus, PhysicalTetromino, PieceView, TETRIS_FIELD_DEFAULT_HEIGHT,
    TETRIS_FIELD_DEFAULT_WIDTH,
};
use vstd::prelude::*;

verus! {

/// Number of cells of the playfield.
pub const TETRIS_FIELD_LENGTH: usize = 200;

pub open spec fn width() -> int {
    10
}

pub open spec fn height() -> int {
    20
}

/// (x, y) names a cell of the playfield.
pub open spec fn in_grid(x: int, y: int) -> bool {
    0 <= x < width() && 0 <= y < height()
}

/// Position of cell (x, y) in the row-major cell sequence.
pub open spec fn index_of(x: int, y: int) -> int {
    y * width() + x
}

/// The cell at (x, y) of the cell sequence `g`.
pub open spec fn cell(g: Seq<CellStatus>, x: int, y: int) -> CellStatus {
    g[index_of(x, y)]
}

/// One of the four cells of `m` is (x, y).
pub open spec fn covers(m: PieceView, x: int, y: int) -> bool {
    ||| m.cells[0] == (x, y)
    ||| m.cells[1] == (x, y)
    ||| m.cells[2] == (x, y)
    ||| m.cells[3] == (x, y)
}

/// `g` with every cell of `m` that lies on the playfield set to `c`.
pub open spec fn filled(g: Seq<CellStatus>, m: PieceView, c: CellStatus) -> Seq<CellStatus> {
    Seq::new(g.len(), |i: int| if covers(m, i % width(), i / width()) { c } else { g[i] })
}

/// `g` after a piece moved from `from` to `to`: the old cells are cleared,
/// then the new ones are written in the piece's colour.
pub open spec fn painted(g: Seq<CellStatus>, from: PieceView, to: PieceView) -> Seq<CellStatus> {
    filled(filled(g, from, CellStatus::Empty), to, to.color)
}

/// Every cell of `m` that lies on the playfield holds `m`'s colour.
pub open spec fn shows(g: Seq<CellStatus>, m: PieceView) -> bool {
    forall|i: int|
        #![trigger m.cells[i]]
        0 <= i < 4 && in_grid(m.cells[i].0, m.cells[i].1) ==> cell(g, m.cells[i].0, m.cells[i].1)
            == m.color
}

/// The cell (x, y) can take `m`: it is off the playfield, empty, or
/// already of `m`'s colour.
pub open spec fn open_for(g: Seq<CellStatus>, m: PieceView, x: int, y: int) -> bool {
    !in_grid(x, y) || cell(g, x, y) == CellStatus::Empty || cell(g, x, y) == m.color
}

/// Every cell of `m` can take it; cells above, below or beside the
/// playfield count as open (the bounds are enforced by the move itself).
pub open spec fn accepts(g: Seq<CellStatus>, m: PieceView) -> bool {
    forall|i: int| #![trigger m.cells[i]] 0 <= i < 4 ==> open_for(g, m, m.cells[i].0, m.cells[i].1)
}

/// Every cell of `m` lies on the playfield and can take it.
pub open spec fn accepts_inside(g: Seq<CellStatus>, m: PieceView) -> bool {
    forall|i: int|
        #![trigger m.cells[i]]
        0 <= i < 4 ==> in_grid(m.cells[i].0, m.cells[i].1) && open_for(
            g,
            m,
            m.cells[i].0,
            m.cells[i].1,
        )
}

/// Every cell of row `y` is occupied.
pub open spec fn row_full(g: Seq<CellStatus>, y: int) -> bool {
    forall|x: int| 0 <= x < width() ==> #[trigger] cell(g, x, y) != CellStatus::Empty
}

/// The lowest full row, if any.
pub open spec fn first_full_row(g: Seq<CellStatus>) -> Option<int> {
    if exists|y: int| 0 <= y < height() && row_full(g, y) {
        Some(choose|y: int| 0 <= y < height() && row_full(g, y) && forall|z: int| 0 <= z < y ==> !row_full(g, z))
    } else {
        None
    }
}

/// The playfield as its rows, bottom row first.
pub open spec fn rows(g: Seq<CellStatus>) -> Seq<Seq<CellStatus>> {
    Seq::new(height() as nat, |y: int| g.subrange(y * width(), y * width() + width()))
}

pub open spec fn is_full_row(r: Seq<CellStatus>) -> bool {
    forall|x: int| 0 <= x < r.len() ==> #[trigger] r[x] != CellStatus::Empty
}

pub open spec fn empty_row() -> Seq<CellStatus> {
    Seq::new(width() as nat, |x: int| CellStatus::Empty)
}

/// The rows that are not full, in their order.
pub open spec fn kept_rows(rs: Seq<Seq<CellStatus>>) -> Seq<Seq<CellStatus>>
    decreases rs.len(),
{
    if rs.len() == 0 {
        rs
    } else if is_full_row(rs.last()) {
        kept_rows(rs.drop_last())
    } else {
        kept_rows(rs.drop_last()).push(rs.last())
    }
}

/// Rows after every full row is removed and the rest have fallen: the kept
/// rows from the bottom up, then empty rows.
pub open spec fn collapsed_rows(rs: Seq<Seq<CellStatus>>) -> Seq<Seq<CellStatus>> {
    kept_rows(rs) + Seq::new((rs.len() - kept_rows(rs).len()) as nat, |i: int| empty_row())
}

/// The cells after every full row is removed and the rest have fallen.
pub open spec fn collapsed(g: Seq<CellStatus>) -> Seq<CellStatus> {
    Seq::new(g.len(), |i: int| collapsed_rows(rows(g))[i / width()][i % width()])
}

/// How many rows are full.
pub open spec fn full_row_count(g: Seq<CellStatus>) -> int {
    height() - kept_rows(rows(g)).len()
}

/// `g` with row `line` removed, the rows above it moved down by one and an
/// empty row added on top.
pub open spec fn row_removed(g: Seq<CellStatus>, line: int) -> Seq<CellStatus> {
    Seq::new(
        g.len(),
        |j: int|
            if j < line * width() {
                g[j]
            } else if j < (height() - 1) * width() {
                g[j + width()]
            } else {
                CellStatus::Empty
            },
    )
}

pub(crate) proof fn lemma_index(i: int, x: int, y: int)
    requires
        0 <= i < width() * height(),
    ensures
        (i % width() == x && i / width() == y) <==> (in_grid(x, y) && i == index_of(x, y)),
{
}

pub(crate) proof fn lemma_row_cell(g: Seq<CellStatus>, y: int)
    requires
        g.len() == width() * height(),
        0 <= y < height(),
    ensures
        rows(g)[y].len() == width(),
        forall|x: int| 0 <= x < width() ==> rows(g)[y][x] == #[trigger] cell(g, x, y),
        row_full(g, y) <==> is_full_row(rows(g)[y]),
{
    assert forall|x: int| 0 <= x < width() implies rows(g)[y][x] == #[trigger] cell(g, x, y) by {
        assert(0 <= y * width() + x < g.len()) by (nonlinear_arith)
            requires
                0 <= y < height(),
                0 <= x < width(),
                g.len() == width() * height(),
        ;
    }
    if is_full_row(rows(g)[y]) {
        assert forall|x: int| 0 <= x < width() implies #[trigger] cell(g, x, y) != CellStatus::Empty by {
            assert(rows(g)[y][x] != CellStatus::Empty);
        }
    }
    if row_full(g, y) {
        assert forall|x: int| 0 <= x < rows(g)[y].len() implies #[trigger] rows(g)[y][x]
            != CellStatus::Empty by {
            assert(cell(g, x, y) != CellStatus::Empty);
        }
    }
}

proof fn lemma_row_removed(g: Seq<CellStatus>, line: int)
    requires
        g.len() == width() * height(),
        0 <= line < height(),
    ensures
        rows(row_removed(g, line)) == rows(g).remove(line).push(empty_row()),
{
    let a = rows(row_removed(g, line));
    let b = rows(g).remove(line).push(empty_row());
    assert forall|y: int| 0 <= y < height() implies a[y] =~= b[y] by {
        assert forall|x: int| 0 <= x < width() implies a[y][x] == b[y][x] by {
            assert(0 <= y * width() + x < g.len()) by (nonlinear_arith)
                requires
                    0 <= y < height(),
                    0 <= x < width(),
                    g.len() == width() * height(),
            ;
            assert((y + 1) * width() == y * width() + width()) by (nonlinear_arith);
            assert(y < line ==> y * width() + x < line * width()) by (nonlinear_arith)
                requires
                    0 <= x < width(),
            ;
            assert(y >= line ==> y * width() + x >= line * width()) by (nonlinear_arith)
                requires
                    0 <= x < width(),
            ;
        }
    }
    assert(a =~= b);
}

pub(crate) proof fn lemma_kept_len(rs: Seq<Seq<CellStatus>>)
    ensures
        kept_rows(rs).len() <= rs.len(),
        forall|i: int| 0 <= i < kept_rows(rs).len() ==> !is_full_row(#[trigger] kept_rows(rs)[i]),
    decreases rs.len(),
{
    if rs.len() > 0 {
        lemma_kept_len(rs.drop_last());
    }
}

proof fn lemma_kept_remove_full(rs: Seq<Seq<CellStatus>>, y: int)
    requires
        0 <= y < rs.len(),
        is_full_row(rs[y]),
    ensures
        kept_rows(rs.remove(y)) == kept_rows(rs),
    decreases rs.len(),
{
    if y == rs.len() - 1 {
        assert(rs.remove(y) =~= rs.drop_last());
    } else {
        lemma_kept_remove_full(rs.drop_last(), y);
        assert(rs.remove(y).drop_last() =~= rs.drop_last().remove(y));
        assert(rs.remove(y).last() == rs.last());
    }
}

proof fn lemma_kept_rows_are_rows(rs: Seq<Seq<CellStatus>>, y: int)
    requires
        0 <= y < kept_rows(rs).len(),
        forall|z: int| 0 <= z < rs.len() ==> (#[trigger] rs[z]).len() == width(),
    ensures
        kept_rows(rs)[y].len() == width(),
    decreases rs.len(),
{
    if rs.len() > 0 {
        lemma_kept_len(rs.drop_last());
        if y < kept_rows(rs.drop_last()).len() {
            lemma_kept_rows_are_rows(rs.drop_last(), y);
        }
    }
}

proof fn lemma_kept_push_not_full(rs: Seq<Seq<CellStatus>>, r: Seq<CellStatus>)
    requires
        !is_full_row(r),
    ensures
        kept_rows(rs.push(r)) == kept_rows(rs).push(r),
{
    assert(rs.push(r).drop_last() =~= rs);
}

proof fn lemma_kept_none_full(rs: Seq<Seq<CellStatus>>)
    requires
        forall|y: int| 0 <= y < rs.len() ==> !is_full_row(#[trigger] rs[y]),
    ensures
        kept_rows(rs) == rs,
    decreases rs.len(),
{
    if rs.len() > 0 {
        lemma_kept_none_full(rs.drop_last());
        assert(rs.drop_last().push(rs.last()) =~= rs);
    }
}

proof fn lemma_empty_row_not_full()
    ensures
        !is_full_row(empty_row()),
{
    assert(empty_row()[0] == CellStatus::Empty);
}

/// A grid of `TETRIS_FIELD_DEFAULT_WIDTH` by `TETRIS_FIELD_DEFAULT_HEIGHT`
/// cells, stored row by row from the bottom row up.
#[derive(Debug)]
pub struct TetrisField {
    field: Vec<CellStatus>,
}

impl View for TetrisField {
    type V = Seq<CellStatus>;

    closed spec fn view(&self) -> Seq<CellStatus> {
        self.field@
    }
}

impl Clone for TetrisField {
    fn clone(&self) -> (r: TetrisField)
        ensures
            r@ == self@,
    {
        let field = self.field.clone();
        assert(field@ =~= self.field@);
        TetrisField { field }
    }
}

impl TetrisField {
    pub open spec fn wf(&self) -> bool {
        self@.len() == width() * height()
    }

    /// An empty playfield.
    pub fn new() -> (r: TetrisField)
        ensures
            r.wf(),
            forall|i: int| 0 <= i < r@.len() ==> r@[i] == CellStatus::Empty,
    {
        let mut field: Vec<CellStatus> = Vec::new();
        while field.len() < TETRIS_FIELD_LENGTH
            invariant
                field.len() <= TETRIS_FIELD_LENGTH,
                forall|i: int| 0 <= i < field.len() ==> field@[i] == CellStatus::Empty,
            decreases TETRIS_FIELD_LENGTH - field.len(),
        {
            field.push(CellStatus::Empty);
        }
        TetrisField { field }
    }

    /// The cell at (x, y), or `None` off the playfield.
    pub fn get(&self, x: i32, y: i32) -> (r: Option<CellStatus>)
        requires
            self.wf(),
        ensures
            r == if in_grid(x as int, y as int) {
                Some(cell(self@, x as int, y as int))
            } else {
                None
            },
    {
        if x < 0 || x >= TETRIS_FIELD_DEFAULT_WIDTH as i32 || y < 0 || y
            >= TETRIS_FIELD_DEFAULT_HEIGHT as i32 {
            None
        } else {
            Some(self.field[(y * TETRIS_FIELD_DEFAULT_WIDTH as i32 + x) as usize])
        }
    }

    /// A mutable reference to the cell at (x, y), or `None` off the
    /// playfield (and nothing changes).
    pub fn get_mut(&mut self, x: i32, y: i32) -> (r: Option<&mut CellStatus>)
        requires
            old(self).wf(),
        ensures
            in_grid(x as int, y as int) ==> r is Some && *r->0 == cell(old(self)@, x as int, y as int)
                && final(self)@ == old(self)@.update(index_of(x as int, y as int), *final(r->0)),
            !in_grid(x as int, y as int) ==> r is None && final(self)@ == old(self)@,
    {
        if x < 0 || x >= TETRIS_FIELD_DEFAULT_WIDTH as i32 || y < 0 || y
            >= TETRIS_FIELD_DEFAULT_HEIGHT as i32 {
            None
        } else {
            Some(&mut self.field[(y * TETRIS_FIELD_DEFAULT_WIDTH as i32 + x) as usize])
        }
    }

    /// Sets the cell at (x, y) to `c`; nothing happens off the playfield.
    pub fn set(&mut self, x: i32, y: i32, c: CellStatus)
        requires
            old(self).wf(),
        ensures
            final(self).wf(),
            final(self)@ == if in_grid(x as int, y as int) {
                old(self)@.update(index_of(x as int, y as int), c)
            } else {
                old(self)@
            },
    {
        if let Some(r) = self.get_mut(x, y) {
            *r = c;
        }
    }

    /// Sets every cell of `p` that lies on the playfield to `c`.
    pub fn fill_cells(&mut self, p: &PhysicalTetromino, c: CellStatus)
        requires
            old(self).wf(),
        ensures
            final(self).wf(),
            final(self)@ == filled(old(self)@, p@, c),
    {
        proof {
            lemma_view_cells(*p);
        }
        let ghost g0 = self@;
        self.set(p.coords[0].x, p.coords[0].y, c);
        self.set(p.coords[1].x, p.coords[1].y, c);
        self.set(p.coords[2].x, p.coords[2].y, c);
        self.set(p.coords[3].x, p.coords[3].y, c);
        assert forall|i: int| 0 <= i < self@.len() implies self@[i] == filled(g0, p@, c)[i] by {
            lemma_index(i, p@.cells[0].0, p@.cells[0].1);
            lemma_index(i, p@.cells[1].0, p@.cells[1].1);
            lemma_index(i, p@.cells[2].0, p@.cells[2].1);
            lemma_index(i, p@.cells[3].0, p@.cells[3].1);
        }
        assert(self@ =~= filled(g0, p@, c));
    }

    /// Moves the cells of a piece from `from` to `to`: clears the old cells,
    /// then writes the new ones in `to`'s colour.
    pub fn repaint(&mut self, from: &PhysicalTetromino, to: &PhysicalTetromino)
        requires
            old(self).wf(),
        ensures
            final(self).wf(),
            final(self)@ == painted(old(self)@, from@, to@),
    {
        self.fill_cells(from, CellStatus::Empty);
        self.fill_cells(to, to.color);
    }

    /// Every cell of `to` can take it once the cells of `from` are cleared;
    /// with `inside`, every cell of `to` must also lie on the playfield.
    pub fn accepts_piece(&self, from: &PhysicalTetromino, to: &PhysicalTetromino, inside: bool) -> (r: bool)
        requires
            self.wf(),
        ensures
            inside ==> r == accepts_inside(filled(self@, from@, CellStatus::Empty), to@),
            !inside ==> r == accepts(filled(self@, from@, CellStatus::Empty), to@),
    {
        proof {
            lemma_view_cells(*to);
            lemma_view_cells(*from);
        }
        let ghost cleared = filled(self@, from@, CellStatus::Empty);
        let mut k: usize = 0;
        while k < 4
            invariant
                0 <= k <= 4,
                self.wf(),
                cleared == filled(self@, from@, CellStatus::Empty),
                forall|j: int|
                    0 <= j < k ==> in_grid(#[trigger] to@.cells[j].0, to@.cells[j].1) || !inside,
                forall|j: int|
                    0 <= j < k ==> open_for(cleared, to@, #[trigger] to@.cells[j].0, to@.cells[j].1),
            decreases 4 - k,
        {
            let p = to.coords[k];
            assert(to@.cells[k as int] == (p.x as int, p.y as int));
            match self.get(p.x, p.y) {
                None => {
                    if inside {
                        return false;
                    }
                },
                Some(c) => {
                    let f = from.coords;
                    let own = (f[0].x == p.x && f[0].y == p.y) || (f[1].x == p.x && f[1].y == p.y)
                        || (f[2].x == p.x && f[2].y == p.y) || (f[3].x == p.x && f[3].y == p.y);
                    proof {
                        let i = index_of(p.x as int, p.y as int);
                        lemma_index(i, p.x as int, p.y as int);
                        lemma_index(i, from@.cells[0].0, from@.cells[0].1);
                        lemma_index(i, from@.cells[1].0, from@.cells[1].1);
                        lemma_index(i, from@.cells[2].0, from@.cells[2].1);
                        lemma_index(i, from@.cells[3].0, from@.cells[3].1);
                        assert(own == covers(from@, p.x as int, p.y as int));
                    }
                    if !own && c != CellStatus::Empty && c != to.color {
                        return false;
                    }
                },
            }
            k = k + 1;
        }
        true
    }

    /// The lowest full row, scanning from the bottom up, or `None`.
    pub fn check_line_clearing(&self) -> (r: Option<u32>)
        requires
            self.wf(),
        ensures
            match r {
                Some(y) => y < height() && row_full(self@, y as int) && forall|z: int|
                    0 <= z < y ==> !row_full(self@, z),
                None => forall|z: int| 0 <= z < height() ==> !row_full(self@, z),
            },
            r == (match first_full_row(self@) {
                Some(y) => Some(y as u32),
                None => None::<u32>,
            }),
    {
        let mut y: u32 = 0;
        while y < TETRIS_FIELD_DEFAULT_HEIGHT
            invariant
                self.wf(),
                y <= height(),
                forall|z: int| 0 <= z < y ==> !row_full(self@, z),
            decreases height() - y,
        {
            let mut x: u32 = 0;
            let mut full = true;
            while x < TETRIS_FIELD_DEFAULT_WIDTH
                invariant
                    self.wf(),
                    y < height(),
                    x <= width(),
                    full <==> forall|v: int| 0 <= v < x ==> #[trigger] cell(self@, v, y as int)
                        != CellStatus::Empty,
                decreases width() - x,
            {
                if self.get(x as i32, y as i32) == Some(CellStatus::Empty) {
                    full = false;
                }
                x = x + 1;
            }
            if full {
                proof {
                    assert(row_full(self@, y as int));
                    let w = choose|w: int|
                        0 <= w < height() && row_full(self@, w) && forall|z: int|
                            0 <= z < w ==> !row_full(self@, z);
                    assert(w == y) by {
                        if w < y {
                            assert(!row_full(self@, w));
                        } else if w > y {
                            assert(!row_full(self@, y as int));
                        }
                    }
                }
                return Some(y);
            }
            y = y + 1;
        }
        None
    }

    /// Removes row `line`: every row above it moves down by one and the top
    /// row becomes empty.
    pub fn clear_line_and_drop_all_above(&mut self, line: u32)
        requires
            old(self).wf(),
            line < height(),
        ensures
            final(self).wf(),
            final(self)@ == row_removed(old(self)@, line as int),
            rows(final(self)@) == rows(old(self)@).remove(line as int).push(empty_row()),
    {
        let ghost g0 = self@;
        let ghost lw: int = line * width();
        let w = TETRIS_FIELD_DEFAULT_WIDTH as usize;
        let last = (TETRIS_FIELD_DEFAULT_HEIGHT as usize - 1) * w;
        let mut j: usize = line as usize * w;
        while j < last
            invariant
                self.field@.len() == g0.len(),
                g0.len() == width() * height(),
                w == width(),
                last == (height() - 1) * width(),
                lw == line * width(),
                0 <= lw,
                lw <= j <= last,
                forall|k: int| 0 <= k < lw ==> self.field@[k] == g0[k],
                forall|k: int| lw <= k < j ==> self.field@[k] == g0[k + width()],
                forall|k: int| j <= k < g0.len() ==> self.field@[k] == g0[k],
            decreases last - j,
        {
            let c = self.field[j + w];
            self.field.set(j, c);
            j = j + 1;
        }
        while j < TETRIS_FIELD_LENGTH
            invariant
                self.field@.len() == g0.len(),
                g0.len() == width() * height(),
                last == (height() - 1) * width(),
                lw == line * width(),
                0 <= lw <= last,
                last <= j <= g0.len(),
                forall|k: int| 0 <= k < lw ==> self.field@[k] == g0[k],
                forall|k: int| lw <= k < last ==> self.field@[k] == g0[k + width()],
                forall|k: int| last <= k < j ==> self.field@[k] == CellStatus::Empty,
            decreases g0.len() - j,
        {
            self.field.set(j, CellStatus::Empty);
            j = j + 1;
        }
        assert(self@ =~= row_removed(g0, line as int));
        proof {
            lemma_row_removed(g0, line as int);
        }
    }

    /// Clears every full row, letting the rows above fall, until none is
    /// left; returns how many rows were cleared.
    pub fn check_for_lines_and_clear(&mut self) -> (r: u32)
        requires
            old(self).wf(),
        ensures
            final(self).wf(),
            rows(final(self)@) == collapsed_rows(rows(old(self)@)),
            final(self)@ == collapsed(old(self)@),
            r == full_row_count(old(self)@),
            forall|y: int| 0 <= y < height() ==> !row_full(final(self)@, y),
    {
        let ghost g0 = self@;
        let ghost k0 = kept_rows(rows(g0));
        let mut n: u32 = 0;
        proof {
            lemma_kept_len(rows(g0));
            assert(k0 =~= k0 + Seq::new(0, |i: int| empty_row()));
        }
        let mut next = self.check_line_clearing();
        while next.is_some()
            invariant
                self.wf(),
                match next {
                    Some(y) => y < height() && row_full(self@, y as int),
                    None => forall|z: int| 0 <= z < height() ==> !row_full(self@, z),
                },
                n <= height(),
                k0 == kept_rows(rows(g0)),
                k0.len() + n <= height(),
                kept_rows(rows(self@)) == k0 + Seq::new(n as nat, |i: int| empty_row()),
            decreases height() - n,
        {
            let line = next.unwrap();
            let ghost before = rows(self@);
            proof {
                lemma_row_cell(self@, line as int);
            }
            self.clear_line_and_drop_all_above(line);
            proof {
                lemma_kept_remove_full(before, line as int);
                lemma_empty_row_not_full();
                lemma_kept_push_not_full(before.remove(line as int), empty_row());
                assert(k0 + Seq::new((n + 1) as nat, |i: int| empty_row()) =~= (k0 + Seq::new(
                    n as nat,
                    |i: int| empty_row(),
                )).push(empty_row()));
                lemma_kept_len(rows(self@));
            }
            n = n + 1;
            next = self.check_line_clearing();
        }
        proof {
            assert forall|y: int| 0 <= y < height() implies !is_full_row(#[trigger] rows(self@)[y]) by {
                lemma_row_cell(self@, y);
            }
            lemma_kept_none_full(rows(self@));
            assert(rows(self@).len() == height());
            assert(rows(self@) =~= collapsed_rows(rows(g0)));
            assert forall|i: int| 0 <= i < self@.len() implies self@[i] == collapsed(g0)[i] by {
                let y = i / width();
                let x = i % width();
                lemma_index(i, x, y);
                lemma_row_cell(self@, y);
            }
            assert(self@ =~= collapsed(g0));
        }
        n
    }
}

/// Clearing full rows is idempotent: once the full rows are cleared none
/// is left, so a second scan finds nothing and a second clearing changes
/// nothing and counts no row.
pub proof fn lemma_clearing_idempotent(g: Seq<CellStatus>)
    requires
        g.len() == width() * height(),
    ensures
        first_full_row(collapsed(g)) is None,
        full_row_count(collapsed(g)) == 0,
        collapsed(collapsed(g)) == collapsed(g),
{
    let c = collapsed(g);
    let k = kept_rows(rows(g));
    lemma_kept_len(rows(g));
    lemma_empty_row_not_full();
    assert forall|y: int| 0 <= y < height() implies rows(c)[y] =~= collapsed_rows(rows(g))[y] by {
        lemma_row_cell(c, y);
        assert forall|x: int| 0 <= x < width() implies rows(c)[y][x] == collapsed_rows(rows(g))[y][x] by {
            let i = index_of(x, y);
            lemma_index(i, x, y);
        }
        if y < k.len() {
            lemma_kept_rows_are_rows(rows(g), y);
        }
    }
    assert(rows(c) =~= collapsed_rows(rows(g)));
    assert forall|y: int| 0 <= y < height() implies !is_full_row(#[trigger] rows(c)[y]) by {
        if y >= k.len() {
            assert(rows(c)[y] == empty_row());
        }
    }
    lemma_kept_none_full(rows(c));
    assert forall|y: int| 0 <= y < height() implies !row_full(c, y) by {
        lemma_row_cell(c, y);
    }
    assert(collapsed_rows(rows(c)) =~= rows(c));
    assert forall|i: int| 0 <= i < c.len() implies collapsed(c)[i] == c[i] by {
        let y = i / width();
        let x = i % width();
        lemma_index(i, x, y);
        lemma_row_cell(c, y);
    }
    assert(collapsed(c) =~= c);
}

} // verus!
