//! What each action does to the playfield and the active piece, stated
//! over the mathematical pictures of both.
use crate::field::{
    accepts, accepts_inside, cell, covers, filled, full_row_count, in_grid, index_of, is_full_row,
    kept_rows, open_for, painted, row_full, rows, shows, width, height,
};
use crate::piece::{
    base_piece, bounded, color_of, moved, shifted, spun, spun_cell, trunc_half, CellStatus,
    Direction, PieceView, SpinDirection, Tetromino,
};
use vstd::prelude::*;

verus! {

/// The piece where the rules let it rest: four cells in the columns of the
/// playfield, at most two rows above it, none far from the pivot.
pub open spec fn resting_ok(m: PieceView) -> bool {
    &&& m.cells.len() == 4
    &&& forall|i: int|
        #![trigger m.cells[i]]
        0 <= i < 4 ==> 0 <= m.cells[i].0 < width() && 0 <= m.cells[i].1 < height() + 2
    &&& forall|i: int|
        #![trigger m.cells[i]]
        0 <= i < 4 ==> -100 <= 2 * m.cells[i].0 - m.pivot2.0 <= 100 && -100 <= 2 * m.cells[i].1
            - m.pivot2.1 <= 100
}

/// Where a one-step move in `dir` takes the piece `m` on `g`, or `None`
/// where it is refused: the translation must be allowed, and each new
/// cell must take the piece once `m`'s own cells are cleared.
pub open spec fn move_target(g: Seq<CellStatus>, m: PieceView, dir: Direction) -> Option<
    PieceView,
> {
    match moved(m, dir) {
        Some(d) => if accepts(filled(g, m, CellStatus::Empty), d) {
            Some(d)
        } else {
            None
        },
        None => None,
    }
}

/// Playfield and piece after a quarter turn of `m` on `g`, or `None` where
/// it is refused. The turn in place is tried first; if it is refused, the
/// piece is moved up one row and the turn is tried once more from there.
pub open spec fn spin_result(g: Seq<CellStatus>, m: PieceView, dir: SpinDirection) -> Option<
    (Seq<CellStatus>, PieceView),
> {
    let s = spun(m, dir);
    if accepts_inside(filled(g, m, CellStatus::Empty), s) {
        Some((painted(g, m, s), s))
    } else {
        match move_target(g, m, Direction::Up) {
            Some(u) => {
                let g1 = painted(g, m, u);
                let s2 = spun(u, dir);
                if accepts_inside(filled(g1, u, CellStatus::Empty), s2) {
                    Some((painted(g1, u, s2), s2))
                } else {
                    None
                }
            },
            None => None,
        }
    }
}

/// The measure that falls with every step down.
pub open spec fn height_of(m: PieceView) -> nat {
    if m.cells.len() > 0 && m.cells[0].1 >= 0 {
        m.cells[0].1 as nat
    } else {
        0
    }
}

proof fn lemma_down_lowers(g: Seq<CellStatus>, m: PieceView)
    requires
        m.cells.len() == 4,
        move_target(g, m, Direction::Down) is Some,
    ensures
        height_of(move_target(g, m, Direction::Down)->0) < height_of(m),
{
    assert(m.cells[0].1 >= 1);
}

/// Playfield, resting piece and number of rows fallen when `m` is moved
/// down on `g`, committing each step, until a step is refused.
pub open spec fn landing(g: Seq<CellStatus>, m: PieceView) -> (Seq<CellStatus>, PieceView, nat)
    decreases height_of(m),
    when m.cells.len() == 4
    via landing_decreases
{
    match move_target(g, m, Direction::Down) {
        Some(d) => {
            let r = landing(painted(g, m, d), d);
            (r.0, r.1, r.2 + 1)
        },
        None => (g, m, 0),
    }
}

#[via_fn]
proof fn landing_decreases(g: Seq<CellStatus>, m: PieceView) {
    if move_target(g, m, Direction::Down) is Some {
        lemma_down_lowers(g, m);
    }
}

/// The ghost projection: where `m` comes to rest and how many rows it
/// falls, found by checking each step down against `g` as it stands,
/// without committing any of them.
pub open spec fn ghost_drop(g: Seq<CellStatus>, m: PieceView) -> (PieceView, nat)
    decreases height_of(m),
    when m.cells.len() == 4
    via ghost_drop_decreases
{
    match move_target(g, m, Direction::Down) {
        Some(d) => {
            let r = ghost_drop(g, d);
            (r.0, r.1 + 1)
        },
        None => (m, 0),
    }
}

#[via_fn]
proof fn ghost_drop_decreases(g: Seq<CellStatus>, m: PieceView) {
    if move_target(g, m, Direction::Down) is Some {
        lemma_down_lowers(g, m);
    }
}

/// Column offset of a new piece: centred, one column further left for
/// every kind but the square.
pub open spec fn spawn_column(k: Tetromino) -> int {
    if k == Tetromino::O {
        width() / 2 - 1
    } else {
        width() / 2 - 2
    }
}

/// A new piece of kind `k`, just above the top row of the playfield.
pub open spec fn spawn_piece(k: Tetromino) -> PieceView {
    shifted(base_piece(k, color_of(k)), spawn_column(k), height())
}

/// Playfield and piece after a piece of kind `k` enters `g`: one step down
/// onto the playfield, which must succeed, then, for every kind but the
/// line, a second step where it is allowed. `None` where the first step is
/// refused.
pub open spec fn placed(g: Seq<CellStatus>, k: Tetromino) -> Option<(Seq<CellStatus>, PieceView)> {
    let p0 = spawn_piece(k);
    match move_target(g, p0, Direction::Down) {
        Some(p1) => {
            let g1 = painted(g, p0, p1);
            if k == Tetromino::Line {
                Some((g1, p1))
            } else {
                match move_target(g1, p1, Direction::Down) {
                    Some(p2) => Some((painted(g1, p1, p2), p2)),
                    None => Some((g1, p1)),
                }
            }
        },
        None => None,
    }
}

pub proof fn lemma_resting_bounded(m: PieceView)
    requires
        resting_ok(m),
    ensures
        bounded(m),
{
    assert(0 <= m.cells[0].0 < width() && 0 <= m.cells[0].1 < height() + 2);
    assert(-100 <= 2 * m.cells[0].0 - m.pivot2.0 <= 100);
    assert(-100 <= 2 * m.cells[0].1 - m.pivot2.1 <= 100);
}

/// After a move from `from` to `to`, the playfield shows `to`.
pub proof fn lemma_painted_shows(g: Seq<CellStatus>, from: PieceView, to: PieceView)
    requires
        g.len() == width() * height(),
    ensures
        shows(painted(g, from, to), to),
{
    assert forall|i: int|
        #![trigger to.cells[i]]
        0 <= i < 4 && in_grid(to.cells[i].0, to.cells[i].1) implies cell(
        painted(g, from, to),
        to.cells[i].0,
        to.cells[i].1,
    ) == to.color by {
        let j = index_of(to.cells[i].0, to.cells[i].1);
        crate::field::lemma_index(j, to.cells[i].0, to.cells[i].1);
        assert(0 <= j < g.len()) by (nonlinear_arith)
            requires
                j == to.cells[i].1 * 10 + to.cells[i].0,
                0 <= to.cells[i].0 < 10,
                0 <= to.cells[i].1 < 20,
                g.len() == 200,
        ;
        assert(covers(to, j % width(), j / width()));
    }
}

/// A piece above the playfield is shown by any playfield.
pub proof fn lemma_spawn_piece(k: Tetromino, g: Seq<CellStatus>)
    requires
        g.len() == width() * height(),
    ensures
        resting_ok(spawn_piece(k)),
        bounded(spawn_piece(k)),
        shows(g, spawn_piece(k)),
        filled(g, spawn_piece(k), CellStatus::Empty) == g,
        spawn_piece(k).kind == k,
        spawn_piece(k).color == color_of(k),
{
    let p = spawn_piece(k);
    assert(p.cells.len() == 4);
    assert forall|i: int| 0 <= i < 4 implies p.cells[i].1 >= height() by {}
    lemma_resting_bounded(p);
    assert forall|i: int| 0 <= i < g.len() implies filled(g, p, CellStatus::Empty)[i] == g[i] by {
        assert(i / width() < height());
    }
    assert(filled(g, p, CellStatus::Empty) =~= g);
}

/// A move left, right or down keeps the piece where it may rest.
pub proof fn lemma_move_keeps_resting(m: PieceView, dir: Direction)
    requires
        resting_ok(m),
        dir != Direction::Up,
        moved(m, dir) is Some,
    ensures
        resting_ok(moved(m, dir)->0),
{
    let d = moved(m, dir)->0;
    assert forall|i: int| #![trigger d.cells[i]] 0 <= i < 4 implies 0 <= d.cells[i].0 < width()
        && 0 <= d.cells[i].1 < height() + 2 by {
        assert(m.cells[i] == m.cells[i]);
    }
    assert forall|i: int| #![trigger d.cells[i]] 0 <= i < 4 implies -100 <= 2 * d.cells[i].0
        - d.pivot2.0 <= 100 && -100 <= 2 * d.cells[i].1 - d.pivot2.1 <= 100 by {
        assert(m.cells[i] == m.cells[i]);
    }
}

proof fn lemma_trunc_half(v: int)
    ensures
        v - 1 <= 2 * trunc_half(v) <= v + 1,
{
}

/// A quarter turn that lands every cell on the playfield leaves the piece
/// where it may rest, from any position at most three rows above it.
pub proof fn lemma_spin_keeps_resting(m: PieceView, dir: SpinDirection)
    requires
        bounded(m),
        forall|i: int|
            #![trigger m.cells[i]]
            0 <= i < 4 ==> 0 <= m.cells[i].0 < width() && 0 <= m.cells[i].1 < height() + 3,
        forall|i: int|
            #![trigger spun(m, dir).cells[i]]
            0 <= i < 4 ==> in_grid(spun(m, dir).cells[i].0, spun(m, dir).cells[i].1),
    ensures
        resting_ok(spun(m, dir)),
{
    let s = spun(m, dir);
    let p = m.pivot2;
    let c0 = m.cells[0];
    let u0 = 2 * c0.0 - p.0;
    let v0 = 2 * c0.1 - p.1;
    assert(s.cells[0] == spun_cell(c0, p, dir));
    assert(in_grid(s.cells[0].0, s.cells[0].1));
    match dir {
        SpinDirection::Clockwise => {
            lemma_trunc_half(v0 + p.0);
            lemma_trunc_half(-u0 + p.1);
        },
        SpinDirection::CounterClockwise => {
            lemma_trunc_half(-v0 + p.0);
            lemma_trunc_half(u0 + p.1);
        },
    }
    assert(-40 <= p.0 <= 60 && -40 <= p.1 <= 60);
    assert forall|i: int| #![trigger s.cells[i]] 0 <= i < 4 implies 0 <= s.cells[i].0 < width()
        && 0 <= s.cells[i].1 < height() + 2 && -100 <= 2 * s.cells[i].0 - s.pivot2.0 <= 100
        && -100 <= 2 * s.cells[i].1 - s.pivot2.1 <= 100 by {
        assert(in_grid(s.cells[i].0, s.cells[i].1));
    }
}

/// A piece that may rest is far enough from the `i32` limits to be moved
/// up one row and turned.
pub proof fn lemma_up_bounded(m: PieceView)
    requires
        resting_ok(m),
    ensures
        bounded(shifted(m, 0, 1)),
        forall|i: int|
            #![trigger shifted(m, 0, 1).cells[i]]
            0 <= i < 4 ==> 0 <= shifted(m, 0, 1).cells[i].0 < width() && 0 <= shifted(
                m,
                0,
                1,
            ).cells[i].1 < height() + 3,
{
    lemma_resting_bounded(m);
    let u = shifted(m, 0, 1);
    assert(0 <= m.cells[0].0 < width() && 0 <= m.cells[0].1 < height() + 2);
    assert(-100 <= 2 * m.cells[0].1 - m.pivot2.1 <= 100);
    assert(-100 <= 2 * m.cells[0].0 - m.pivot2.0 <= 100);
    assert forall|i: int| #![trigger u.cells[i]] 0 <= i < 4 implies -1000 <= u.cells[i].0 <= 1000
        && -1000 <= u.cells[i].1 <= 1000 && 0 <= u.cells[i].0 < width() && 0 <= u.cells[i].1
        < height() + 3 by {
        assert(m.cells[i] == m.cells[i]);
    }
}

/// Checking the kicked turn against the playfield with the piece moved up
/// is the same as checking it against the playfield as it was: the cells
/// the piece moved into were empty or already of its colour.
pub proof fn lemma_kick_check(g: Seq<CellStatus>, a: PieceView, u: PieceView, s: PieceView)
    requires
        g.len() == width() * height(),
        accepts(filled(g, a, CellStatus::Empty), u),
        u.color == s.color,
        u.cells.len() == 4,
        s.cells.len() == 4,
    ensures
        accepts_inside(filled(painted(g, a, u), u, CellStatus::Empty), s) == accepts_inside(
            filled(g, a, CellStatus::Empty),
            s,
        ),
{
    let h = filled(g, a, CellStatus::Empty);
    let k = filled(painted(g, a, u), u, CellStatus::Empty);
    assert forall|i: int| #![trigger s.cells[i]] 0 <= i < 4 && in_grid(s.cells[i].0, s.cells[i].1)
        implies open_for(k, s, s.cells[i].0, s.cells[i].1) == open_for(
        h,
        s,
        s.cells[i].0,
        s.cells[i].1,
    ) by {
        let x = s.cells[i].0;
        let y = s.cells[i].1;
        let j = index_of(x, y);
        crate::field::lemma_index(j, x, y);
        assert(0 <= j < g.len());
        if covers(u, x, y) {
            if u.cells[0] == (x, y) {
                assert(open_for(h, u, u.cells[0].0, u.cells[0].1));
            } else if u.cells[1] == (x, y) {
                assert(open_for(h, u, u.cells[1].0, u.cells[1].1));
            } else if u.cells[2] == (x, y) {
                assert(open_for(h, u, u.cells[2].0, u.cells[2].1));
            } else {
                assert(open_for(h, u, u.cells[3].0, u.cells[3].1));
            }
        }
    }
}

/// `h` and `g` agree on which cells can take a piece of colour `c`.
pub open spec fn same_openness(h: Seq<CellStatus>, g: Seq<CellStatus>, c: CellStatus) -> bool {
    &&& h.len() == g.len()
    &&& forall|i: int|
        0 <= i < g.len() ==> ((h[i] == CellStatus::Empty || h[i] == c) == (g[i]
            == CellStatus::Empty || g[i] == c))
}

proof fn lemma_move_target_openness(h: Seq<CellStatus>, g: Seq<CellStatus>, m: PieceView, dir: Direction)
    requires
        g.len() == width() * height(),
        same_openness(h, g, m.color),
    ensures
        move_target(h, m, dir) == move_target(g, m, dir),
{
    if let Some(d) = moved(m, dir) {
        let fh = filled(h, m, CellStatus::Empty);
        let fg = filled(g, m, CellStatus::Empty);
        assert forall|j: int| #![trigger d.cells[j]] 0 <= j < 4 implies open_for(
            fh,
            d,
            d.cells[j].0,
            d.cells[j].1,
        ) == open_for(fg, d, d.cells[j].0, d.cells[j].1) by {
            let x = d.cells[j].0;
            let y = d.cells[j].1;
            if in_grid(x, y) {
                let k = index_of(x, y);
                crate::field::lemma_index(k, x, y);
                assert(0 <= k < g.len());
            }
        }
        assert(accepts(fh, d) == accepts(fg, d));
    }
}

proof fn lemma_painted_openness(h: Seq<CellStatus>, m: PieceView, d: PieceView)
    requires
        h.len() == width() * height(),
        m.cells.len() == 4,
        d.cells.len() == 4,
        shows(h, m),
        accepts(filled(h, m, CellStatus::Empty), d),
        d.color == m.color,
    ensures
        same_openness(painted(h, m, d), h, m.color),
{
    let p = painted(h, m, d);
    let fh = filled(h, m, CellStatus::Empty);
    assert forall|i: int| 0 <= i < h.len() implies ((p[i] == CellStatus::Empty || p[i] == m.color)
        == (h[i] == CellStatus::Empty || h[i] == m.color)) by {
        let x = i % width();
        let y = i / width();
        crate::field::lemma_index(i, x, y);
        if covers(m, x, y) {
            if m.cells[0] == (x, y) {
                assert(in_grid(m.cells[0].0, m.cells[0].1));
            } else if m.cells[1] == (x, y) {
                assert(in_grid(m.cells[1].0, m.cells[1].1));
            } else if m.cells[2] == (x, y) {
                assert(in_grid(m.cells[2].0, m.cells[2].1));
            } else {
                assert(in_grid(m.cells[3].0, m.cells[3].1));
            }
        }
        if covers(d, x, y) {
            if d.cells[0] == (x, y) {
                assert(open_for(fh, d, d.cells[0].0, d.cells[0].1));
            } else if d.cells[1] == (x, y) {
                assert(open_for(fh, d, d.cells[1].0, d.cells[1].1));
            } else if d.cells[2] == (x, y) {
                assert(open_for(fh, d, d.cells[2].0, d.cells[2].1));
            } else {
                assert(open_for(fh, d, d.cells[3].0, d.cells[3].1));
            }
        }
    }
}

proof fn lemma_landing_ghost(h: Seq<CellStatus>, g: Seq<CellStatus>, m: PieceView)
    requires
        g.len() == width() * height(),
        m.cells.len() == 4,
        shows(h, m),
        same_openness(h, g, m.color),
    ensures
        landing(h, m).1 == ghost_drop(g, m).0,
        landing(h, m).2 == ghost_drop(g, m).1,
    decreases height_of(m),
{
    lemma_move_target_openness(h, g, m, Direction::Down);
    if let Some(d) = move_target(h, m, Direction::Down) {
        lemma_down_lowers(h, m);
        let h1 = painted(h, m, d);
        lemma_painted_openness(h, m, d);
        lemma_painted_shows(h, m, d);
        assert(same_openness(h1, g, d.color));
        lemma_landing_ghost(h1, g, d);
    }
}

/// The rows a piece falls when each step down is committed, and where it
/// comes to rest, are those the ghost projection finds by checking each
/// step against the unchanged playfield.
pub proof fn lemma_landing_matches_ghost(g: Seq<CellStatus>, m: PieceView)
    requires
        g.len() == width() * height(),
        m.cells.len() == 4,
        shows(g, m),
    ensures
        landing(g, m).1 == ghost_drop(g, m).0,
        landing(g, m).2 == ghost_drop(g, m).1,
{
    lemma_landing_ghost(g, g, m);
}

/// The ghost sits straight below the piece, as many rows down as it fell.
pub proof fn lemma_ghost_below(g: Seq<CellStatus>, m: PieceView)
    requires
        m.cells.len() == 4,
    ensures
        ghost_drop(g, m).0.cells.len() == 4,
        forall|i: int|
            0 <= i < 4 ==> (#[trigger] ghost_drop(g, m).0.cells[i]) == (m.cells[i].0, m.cells[i].1
                - ghost_drop(g, m).1),
    decreases height_of(m),
{
    if let Some(d) = move_target(g, m, Direction::Down) {
        lemma_down_lowers(g, m);
        lemma_ghost_below(g, d);
        assert forall|i: int| 0 <= i < 4 implies (#[trigger] ghost_drop(g, m).0.cells[i]) == (
        m.cells[i].0, m.cells[i].1 - ghost_drop(g, m).1) by {
            assert(ghost_drop(g, d).0.cells[i] == (d.cells[i].0, d.cells[i].1 - ghost_drop(g, d).1));
        }
    }
}

/// Every full row of `g` holds a cell of `m`.
pub open spec fn full_rows_touch(g: Seq<CellStatus>, m: PieceView) -> bool {
    forall|y: int|
        0 <= y < height() && #[trigger] row_full(g, y) ==> m.cells[0].1 == y || m.cells[1].1 == y
            || m.cells[2].1 == y || m.cells[3].1 == y
}

/// The cells of `m` lie in the columns of the playfield.
pub open spec fn in_columns(m: PieceView) -> bool {
    &&& m.cells.len() == 4
    &&& forall|i: int| #![trigger m.cells[i]] 0 <= i < 4 ==> 0 <= m.cells[i].0 < width()
}

/// A row that holds a cell of `m` is not full once `m`'s cells are cleared
/// and `d` has no cell in it.
proof fn lemma_row_emptied(g: Seq<CellStatus>, m: PieceView, d: PieceView, y: int, i: int)
    requires
        g.len() == width() * height(),
        in_columns(m),
        0 <= y < height(),
        0 <= i < 4,
        m.cells[i].1 == y,
        d.cells.len() == 4,
    ensures
        !covers(d, m.cells[i].0, y) ==> !row_full(painted(g, m, d), y),
        !row_full(filled(g, m, CellStatus::Empty), y),
{
    let x = m.cells[i].0;
    let j = index_of(x, y);
    crate::field::lemma_index(j, x, y);
    assert(0 <= j < g.len());
    if !covers(d, x, y) {
        assert(cell(painted(g, m, d), x, y) == CellStatus::Empty);
    }
    assert(cell(filled(g, m, CellStatus::Empty), x, y) == CellStatus::Empty);
}

/// After a move from `m` to `d`, every full row holds a cell of `d`.
pub proof fn lemma_painted_touch(g: Seq<CellStatus>, m: PieceView, d: PieceView)
    requires
        g.len() == width() * height(),
        in_columns(m),
        d.cells.len() == 4,
        full_rows_touch(g, m),
    ensures
        full_rows_touch(painted(g, m, d), d),
{
    let p = painted(g, m, d);
    assert forall|y: int| 0 <= y < height() && #[trigger] row_full(p, y) implies d.cells[0].1 == y
        || d.cells[1].1 == y || d.cells[2].1 == y || d.cells[3].1 == y by {
        if !(d.cells[0].1 == y || d.cells[1].1 == y || d.cells[2].1 == y || d.cells[3].1 == y) {
            assert forall|x: int| 0 <= x < width() implies #[trigger] cell(g, x, y)
                != CellStatus::Empty by {
                let j = index_of(x, y);
                crate::field::lemma_index(j, x, y);
                assert(0 <= j < g.len());
                assert(cell(p, x, y) != CellStatus::Empty);
            }
            assert(row_full(g, y));
            if m.cells[0].1 == y {
                lemma_row_emptied(g, m, d, y, 0);
            } else if m.cells[1].1 == y {
                lemma_row_emptied(g, m, d, y, 1);
            } else if m.cells[2].1 == y {
                lemma_row_emptied(g, m, d, y, 2);
            } else {
                lemma_row_emptied(g, m, d, y, 3);
            }
        }
    }
}

/// Once the cells of `m` are cleared no row is full.
pub proof fn lemma_cleared_no_full(g: Seq<CellStatus>, m: PieceView)
    requires
        g.len() == width() * height(),
        in_columns(m),
        full_rows_touch(g, m),
    ensures
        forall|y: int| 0 <= y < height() ==> !row_full(filled(g, m, CellStatus::Empty), y),
{
    let f = filled(g, m, CellStatus::Empty);
    assert forall|y: int| 0 <= y < height() implies !row_full(f, y) by {
        if row_full(f, y) {
            assert forall|x: int| 0 <= x < width() implies #[trigger] cell(g, x, y)
                != CellStatus::Empty by {
                let j = index_of(x, y);
                crate::field::lemma_index(j, x, y);
                assert(0 <= j < g.len());
                assert(cell(f, x, y) != CellStatus::Empty);
            }
            assert(row_full(g, y));
            if m.cells[0].1 == y {
                lemma_row_emptied(g, m, m, y, 0);
            } else if m.cells[1].1 == y {
                lemma_row_emptied(g, m, m, y, 1);
            } else if m.cells[2].1 == y {
                lemma_row_emptied(g, m, m, y, 2);
            } else {
                lemma_row_emptied(g, m, m, y, 3);
            }
        }
    }
}

/// `m` has a cell in row `y`.
pub open spec fn hits(m: PieceView, y: int) -> bool {
    m.cells[0].1 == y || m.cells[1].1 == y || m.cells[2].1 == y || m.cells[3].1 == y
}

/// Cell `i` is the first of `m`'s cells in its row and that row is below `n`.
pub open spec fn first_below(m: PieceView, i: int, n: int) -> int {
    if m.cells[i].1 < n && forall|k: int| #![trigger m.cells[k]] 0 <= k < i ==> m.cells[k].1 != m.cells[i].1 {
        1
    } else {
        0
    }
}

/// How many of the rows below `n` hold a cell of `m`.
pub open spec fn rows_hit(m: PieceView, n: int) -> int
    decreases n,
{
    if n <= 0 {
        0
    } else {
        rows_hit(m, n - 1) + if hits(m, n - 1) {
            1int
        } else {
            0int
        }
    }
}

proof fn lemma_first_below(m: PieceView, n: int)
    ensures
        first_below(m, 0, n) == if m.cells[0].1 < n {
            1int
        } else {
            0int
        },
        first_below(m, 1, n) == if m.cells[1].1 < n && m.cells[0].1 != m.cells[1].1 {
            1int
        } else {
            0int
        },
        first_below(m, 2, n) == if m.cells[2].1 < n && m.cells[0].1 != m.cells[2].1 && m.cells[1].1
            != m.cells[2].1 {
            1int
        } else {
            0int
        },
        first_below(m, 3, n) == if m.cells[3].1 < n && m.cells[0].1 != m.cells[3].1 && m.cells[1].1
            != m.cells[3].1 && m.cells[2].1 != m.cells[3].1 {
            1int
        } else {
            0int
        },
{
    if m.cells[1].1 < n && m.cells[0].1 != m.cells[1].1 {
        assert forall|k: int| #![trigger m.cells[k]] 0 <= k < 1 implies m.cells[k].1 != m.cells[1].1 by {
            assert(k == 0);
        }
    }
    if m.cells[2].1 < n && m.cells[0].1 != m.cells[2].1 && m.cells[1].1 != m.cells[2].1 {
        assert forall|k: int| #![trigger m.cells[k]] 0 <= k < 2 implies m.cells[k].1 != m.cells[2].1 by {
            assert(k == 0 || k == 1);
        }
    }
    if m.cells[3].1 < n && m.cells[0].1 != m.cells[3].1 && m.cells[1].1 != m.cells[3].1
        && m.cells[2].1 != m.cells[3].1 {
        assert forall|k: int| #![trigger m.cells[k]] 0 <= k < 3 implies m.cells[k].1 != m.cells[3].1 by {
            assert(k == 0 || k == 1 || k == 2);
        }
    }
}

proof fn lemma_rows_hit_at_most_four(m: PieceView, n: int)
    requires
        n >= 0,
        m.cells.len() == 4,
        forall|i: int| #![trigger m.cells[i]] 0 <= i < 4 ==> m.cells[i].1 >= 0,
    ensures
        rows_hit(m, n) == first_below(m, 0, n) + first_below(m, 1, n) + first_below(m, 2, n)
            + first_below(m, 3, n),
        rows_hit(m, n) <= 4,
    decreases n,
{
    lemma_first_below(m, n);
    if n > 0 {
        lemma_rows_hit_at_most_four(m, n - 1);
        lemma_first_below(m, n - 1);
    }
}

proof fn lemma_full_count_prefix(g: Seq<CellStatus>, m: PieceView, n: int)
    requires
        g.len() == width() * height(),
        full_rows_touch(g, m),
        0 <= n <= height(),
    ensures
        n - kept_rows(rows(g).take(n)).len() <= rows_hit(m, n),
    decreases n,
{
    if n > 0 {
        let rs = rows(g).take(n);
        assert(rs.drop_last() =~= rows(g).take(n - 1));
        lemma_full_count_prefix(g, m, n - 1);
        if is_full_row(rs.last()) {
            crate::field::lemma_row_cell(g, n - 1);
            assert(row_full(g, n - 1));
        }
    }
}

/// When every full row holds a cell of `m`, at most four rows are full.
pub proof fn lemma_at_most_four_full(g: Seq<CellStatus>, m: PieceView)
    requires
        g.len() == width() * height(),
        resting_ok(m),
        full_rows_touch(g, m),
    ensures
        0 <= full_row_count(g) <= 4,
{
    lemma_full_count_prefix(g, m, height());
    lemma_rows_hit_at_most_four(m, height());
    assert(rows(g).take(height()) =~= rows(g));
    crate::field::lemma_kept_len(rows(g));
}

} // verus!
