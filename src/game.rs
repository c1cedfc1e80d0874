//! A game session: the playfield, the active, next and held pieces, the
//! bag they come from, and the actions a player takes.
use crate::bag::TetrominoIterator;
use crate::field::{
    accepts_inside, collapsed, filled, full_row_count, height, in_grid, painted, row_full, shows,
    width, TetrisField,
};
use crate::piece::{
    base_piece, color_of, tetromino_to_physical, CellStatus, Direction, PhysicalTetromino,
    PieceView, Pos2, SpinDirection, Tetromino, TETRIS_FIELD_DEFAULT_HEIGHT,
    TETRIS_FIELD_DEFAULT_WIDTH,
};
use crate::rules::{
    full_rows_touch, ghost_drop, landing, lemma_at_most_four_full, lemma_cleared_no_full,
    lemma_ghost_below, lemma_kick_check, lemma_landing_matches_ghost, lemma_move_keeps_resting,
    lemma_painted_shows, lemma_painted_touch, lemma_resting_bounded, lemma_spawn_piece,
    lemma_spin_keeps_resting, lemma_up_bounded, move_target, placed, resting_ok, spawn_piece,
    spin_result,
};
use rand::rngs::StdRng;
use vstd::prelude::*;

verus! {

/// A playfield on which every cell is empty.
pub open spec fn empty_field() -> Seq<CellStatus> {
    Seq::new((width() * height()) as nat, |i: int| CellStatus::Empty)
}

proof fn lemma_enters_empty(k: Tetromino)
    ensures
        placed(empty_field(), k) is Some,
{
    let g = empty_field();
    let p0 = spawn_piece(k);
    lemma_spawn_piece(k, g);
    let d = crate::piece::moved(p0, Direction::Down);
    assert(d is Some);
    let cleared = filled(g, p0, CellStatus::Empty);
    assert forall|i: int| 0 <= i < cleared.len() implies cleared[i] == CellStatus::Empty by {}
    assert forall|i: int| #![trigger d->0.cells[i]] 0 <= i < 4 implies crate::field::open_for(
        cleared,
        d->0,
        d->0.cells[i].0,
        d->0.cells[i].1,
    ) by {
        let c = d->0.cells[i];
        if in_grid(c.0, c.1) {
            assert(0 <= crate::field::index_of(c.0, c.1) < 200);
        }
    }
}

/// Every cell of `m` lies on the playfield and holds `m`'s colour.
pub open spec fn piece_in_view(g: Seq<CellStatus>, m: PieceView) -> bool {
    forall|i: int|
        #![trigger m.cells[i]]
        0 <= i < 4 ==> in_grid(m.cells[i].0, m.cells[i].1) && crate::field::cell(
            g,
            m.cells[i].0,
            m.cells[i].1,
        ) == m.color
}

/// Next, held and dealt kinds, the swap flag and the end flag are the same
/// in `a` and `b`.
pub open spec fn keeps_queue(a: &Tetris, b: &Tetris) -> bool {
    &&& a.next_kind() == b.next_kind()
    &&& a.held_kind() == b.held_kind()
    &&& a.history() == b.history()
    &&& a.swapped() == b.swapped()
    &&& a.is_over() == b.is_over()
}

/// What locking the active piece of `before` on the playfield `g` leads to:
/// the full rows are cleared, and the next kind enters. If it enters,
/// `lines` is the number of rows cleared, the swap flag is reset and a new
/// next kind is dealt; if it cannot, the session is over, `lines` is
/// `None` and the playfield is left as the clearing made it.
pub open spec fn locked_then_spawned(
    before: &Tetris,
    g: Seq<CellStatus>,
    after: &Tetris,
    lines: Option<u32>,
) -> bool {
    let g1 = collapsed(g);
    &&& !after.swapped()
    &&& after.held_kind() == before.held_kind()
    &&& match placed(g1, before.next_kind()) {
        Some(gm) => {
            &&& lines == Some(full_row_count(g) as u32)
            &&& after.cells() == gm.0
            &&& after.active() == gm.1
            &&& !after.is_over()
            &&& after.history() == before.history().push(after.next_kind())
        },
        None => {
            &&& lines is None
            &&& after.is_over()
            &&& after.cells() == g1
            &&& after.next_kind() == before.next_kind()
            &&& after.history() == before.history()
        },
    }
}

/// Each cell of `g` with its column and row, in storage order.
pub open spec fn listing(g: Seq<CellStatus>) -> Seq<(CellStatus, u32, u32)> {
    Seq::new(g.len(), |i: int| (g[i], (i % width()) as u32, (i / width()) as u32))
}

/// The non-empty cells among the first `n` of `listing(g)`.
pub open spec fn occupied_prefix(g: Seq<CellStatus>, n: int) -> Seq<(CellStatus, u32, u32)> {
    listing(g).take(n).filter(|t: (CellStatus, u32, u32)| t.0 != CellStatus::Empty)
}

/// Every non-empty cell of `g` with its column and row, bottom row first,
/// left to right within a row.
pub open spec fn occupied_cells(g: Seq<CellStatus>) -> Seq<(CellStatus, u32, u32)> {
    occupied_prefix(g, g.len() as int)
}

/// The four cells of `m` with its colour.
pub open spec fn listed(m: PieceView) -> Seq<(CellStatus, u32, u32)> {
    m.cells.map_values(|c: (int, int)| (m.color, c.0 as u32, c.1 as u32))
}

/// The four cells of `m`.
pub open spec fn positions(m: PieceView) -> Seq<(u32, u32)> {
    m.cells.map_values(|c: (int, int)| (c.0 as u32, c.1 as u32))
}

/// One game session.
pub struct Tetris {
    pub field: TetrisField,
    active_piece: PhysicalTetromino,
    next_piece: PhysicalTetromino,
    stored_piece: PhysicalTetromino,
    iterator: TetrominoIterator,
    switched_since_lock: bool,
    game_over: bool,
}

impl Tetris {
    /// The cells of the playfield.
    pub closed spec fn cells(&self) -> Seq<CellStatus> {
        self.field@
    }

    /// The falling piece.
    pub closed spec fn active(&self) -> PieceView {
        self.active_piece@
    }

    /// The kind that enters after the active piece locks.
    pub closed spec fn next_kind(&self) -> Tetromino {
        self.next_piece.tetromino
    }

    /// The kind waiting in the hold slot.
    pub closed spec fn held_kind(&self) -> Tetromino {
        self.stored_piece.tetromino
    }

    /// A swap with the held piece has happened since the last lock.
    pub closed spec fn swapped(&self) -> bool {
        self.switched_since_lock
    }

    /// The session has ended: a new piece could not enter.
    pub closed spec fn is_over(&self) -> bool {
        self.game_over
    }

    /// Every kind the session's bag has dealt, in order.
    pub closed spec fn history(&self) -> Seq<Tetromino> {
        self.iterator.history()
    }

    pub closed spec fn bag_wf(&self) -> bool {
        self.iterator.wf()
    }

    pub closed spec fn wf(&self) -> bool {
        &&& self.field.wf()
        &&& resting_ok(self.active_piece@)
        &&& !self.game_over ==> shows(self.field@, self.active_piece@)
        &&& !self.game_over ==> full_rows_touch(self.field@, self.active_piece@)
        &&& self.active_piece@.color == color_of(self.active_piece@.kind)
        &&& self.next_piece@ == base_piece(self.next_piece.tetromino, color_of(self.next_piece.tetromino))
        &&& self.stored_piece@ == base_piece(
            self.stored_piece.tetromino,
            color_of(self.stored_piece.tetromino),
        )
        &&& self.iterator.wf()
    }

    /// Where a one-step move in `direction` takes `tetromino` on `field`
    /// (see [`move_target`]); nothing is written.
    fn check_move(field: &TetrisField, tetromino: &PhysicalTetromino, direction: Direction) -> (r:
        Result<PhysicalTetromino, ()>)
        requires
            field.wf(),
            crate::piece::bounded(tetromino@),
        ensures
            match move_target(field@, tetromino@, direction) {
                Some(d) => r is Ok && r->Ok_0@ == d,
                None => r is Err,
            },
    {
        let t = match tetromino.moved(direction) {
            Ok(t) => t,
            Err(_) => {
                return Err(());
            },
        };
        if field.accepts_piece(tetromino, &t, false) {
            Ok(t)
        } else {
            Err(())
        }
    }

    /// Moves `tetromino` one step in `direction` on `field` where the rules
    /// allow it; otherwise nothing changes.
    fn try_move(field: &mut TetrisField, tetromino: &mut PhysicalTetromino, direction: Direction) -> (r:
        Result<(), ()>)
        requires
            old(field).wf(),
            crate::piece::bounded(old(tetromino)@),
        ensures
            final(field).wf(),
            match move_target(old(field)@, old(tetromino)@, direction) {
                Some(d) => r is Ok && final(tetromino)@ == d && final(field)@ == painted(
                    old(field)@,
                    old(tetromino)@,
                    d,
                ),
                None => r is Err && *final(tetromino) == *old(tetromino) && final(field)@ == old(
                    field,
                )@,
            },
    {
        match Self::check_move(field, tetromino, direction) {
            Ok(t) => {
                field.repaint(tetromino, &t);
                *tetromino = t;
                Ok(())
            },
            Err(_) => Err(()),
        }
    }

    /// A new piece of kind `tetromino` just above the playfield, not yet
    /// written to it.
    fn spawn_position(tetromino: Tetromino) -> (r: PhysicalTetromino)
        ensures
            r@ == spawn_piece(tetromino),
    {
        let half_width = (TETRIS_FIELD_DEFAULT_WIDTH / 2 - 1) as i32;
        let column = if tetromino == Tetromino::O {
            half_width
        } else {
            half_width - 1
        };
        let p = tetromino_to_physical(tetromino);
        proof {
            crate::piece::lemma_view_cells(p);
        }
        p.plus(Pos2::new(column, TETRIS_FIELD_DEFAULT_HEIGHT as i32))
    }

    /// Lets a piece of kind `tetromino` enter `field` (see [`placed`]).
    /// Where its first step onto the playfield is refused, the result is
    /// `Err` and the playfield is left as it was.
    pub fn place_tetromino_on_field(field: &mut TetrisField, tetromino: Tetromino) -> (r: Result<
        PhysicalTetromino,
        (),
    >)
        requires
            old(field).wf(),
        ensures
            final(field).wf(),
            match placed(old(field)@, tetromino) {
                Some(gm) => r is Ok && final(field)@ == gm.0 && r->Ok_0@ == gm.1,
                None => r is Err && final(field)@ == old(field)@,
            },
            r is Ok ==> resting_ok(r->Ok_0@) && shows(final(field)@, r->Ok_0@) && r->Ok_0@.kind
                == tetromino && r->Ok_0@.color == color_of(tetromino),
            r is Ok && (forall|y: int| 0 <= y < height() ==> !row_full(old(field)@, y))
                ==> full_rows_touch(final(field)@, r->Ok_0@),
    {
        let mut p = Self::spawn_position(tetromino);
        proof {
            lemma_spawn_piece(tetromino, field@);
        }
        let ghost p0 = p@;
        let ghost g0 = field@;
        if Self::try_move(field, &mut p, Direction::Down).is_err() {
            return Err(());
        }
        proof {
            lemma_move_keeps_resting(p0, Direction::Down);
            lemma_resting_bounded(p@);
            lemma_painted_shows(g0, p0, p@);
            if forall|y: int| 0 <= y < height() ==> !row_full(g0, y) {
                lemma_painted_touch(g0, p0, p@);
            }
        }
        if tetromino != Tetromino::Line {
            let ghost p1 = p@;
            let ghost g1 = field@;
            let _ = Self::try_move(field, &mut p, Direction::Down);
            proof {
                if move_target(g1, p1, Direction::Down) is Some {
                    lemma_move_keeps_resting(p1, Direction::Down);
                    lemma_painted_shows(g1, p1, p@);
                    if full_rows_touch(g1, p1) {
                        lemma_painted_touch(g1, p1, p@);
                    }
                }
            }
        }
        Ok(p)
    }

    /// A new session drawing its pieces from `rng`: the first kind dealt
    /// enters the empty playfield, the second is next and the third is held.
    pub fn new(rng: StdRng) -> (r: Tetris)
        ensures
            r.wf(),
            !r.is_over(),
            !r.swapped(),
            r.history().len() == 3,
            r.active().kind == r.history()[0],
            r.next_kind() == r.history()[1],
            r.held_kind() == r.history()[2],
            placed(empty_field(), r.history()[0]) == Some((r.cells(), r.active())),
    {
        let mut iterator = TetrominoIterator::new(rng);
        let mut field = TetrisField::new();
        let first = iterator.next();
        proof {
            assert(field@ =~= empty_field());
            lemma_enters_empty(first);
            assert forall|y: int| 0 <= y < height() implies !row_full(field@, y) by {
                assert(crate::field::cell(field@, 0, y) == CellStatus::Empty);
            }
        }
        let active_piece = match Self::place_tetromino_on_field(&mut field, first) {
            Ok(p) => p,
            Err(_) => Self::spawn_position(first),
        };
        let next_piece = tetromino_to_physical(iterator.next());
        let stored_piece = tetromino_to_physical(iterator.next());
        Tetris {
            field,
            active_piece,
            next_piece,
            stored_piece,
            iterator,
            switched_since_lock: false,
            game_over: false,
        }
    }

    fn try_sideways(&mut self, direction: Direction) -> (r: Result<(), ()>)
        requires
            old(self).wf(),
            direction == Direction::Left || direction == Direction::Right,
        ensures
            final(self).wf(),
            keeps_queue(old(self), final(self)),
            old(self).is_over() ==> r is Err && final(self).cells() == old(self).cells()
                && final(self).active() == old(self).active(),
            !old(self).is_over() ==> match move_target(old(self).cells(), old(self).active(), direction) {
                Some(d) => r is Ok && final(self).active() == d && final(self).cells() == painted(
                    old(self).cells(),
                    old(self).active(),
                    d,
                ),
                None => r is Err && final(self).cells() == old(self).cells() && final(self).active()
                    == old(self).active(),
            },
            piece_in_view(old(self).cells(), old(self).active()) ==> piece_in_view(
                final(self).cells(),
                final(self).active(),
            ),
    {
        if self.game_over {
            return Err(());
        }
        proof {
            lemma_resting_bounded(self.active_piece@);
        }
        let ghost g0 = self.field@;
        let ghost m0 = self.active_piece@;
        let r = Self::try_move(&mut self.field, &mut self.active_piece, direction);
        proof {
            if r is Ok {
                lemma_move_keeps_resting(m0, direction);
                lemma_painted_shows(g0, m0, self.active_piece@);
                lemma_painted_touch(g0, m0, self.active_piece@);
                let d = self.active_piece@;
                assert forall|i: int| #![trigger d.cells[i]] 0 <= i < 4 && in_grid(
                    m0.cells[i].0,
                    m0.cells[i].1,
                ) implies in_grid(d.cells[i].0, d.cells[i].1) by {}
            }
        }
        r
    }

    /// Moves the active piece one column left where the rules allow it.
    pub fn try_left(&mut self) -> (r: Result<(), ()>)
        requires
            old(self).wf(),
        ensures
            final(self).wf(),
            keeps_queue(old(self), final(self)),
            old(self).is_over() ==> r is Err && final(self).cells() == old(self).cells()
                && final(self).active() == old(self).active(),
            !old(self).is_over() ==> match move_target(old(self).cells(), old(self).active(), Direction::Left) {
                Some(d) => r is Ok && final(self).active() == d && final(self).cells() == painted(
                    old(self).cells(),
                    old(self).active(),
                    d,
                ),
                None => r is Err && final(self).cells() == old(self).cells() && final(self).active()
                    == old(self).active(),
            },
            piece_in_view(old(self).cells(), old(self).active()) ==> piece_in_view(
                final(self).cells(),
                final(self).active(),
            ),
    {
        self.try_sideways(Direction::Left)
    }

    /// Moves the active piece one column right where the rules allow it.
    pub fn try_right(&mut self) -> (r: Result<(), ()>)
        requires
            old(self).wf(),
        ensures
            final(self).wf(),
            keeps_queue(old(self), final(self)),
            old(self).is_over() ==> r is Err && final(self).cells() == old(self).cells()
                && final(self).active() == old(self).active(),
            !old(self).is_over() ==> match move_target(old(self).cells(), old(self).active(), Direction::Right) {
                Some(d) => r is Ok && final(self).active() == d && final(self).cells() == painted(
                    old(self).cells(),
                    old(self).active(),
                    d,
                ),
                None => r is Err && final(self).cells() == old(self).cells() && final(self).active()
                    == old(self).active(),
            },
            piece_in_view(old(self).cells(), old(self).active()) ==> piece_in_view(
                final(self).cells(),
                final(self).active(),
            ),
    {
        self.try_sideways(Direction::Right)
    }

    /// Turns the active piece a quarter (see [`spin_result`]).
    fn try_spin(&mut self, spin_direction: SpinDirection) -> (r: Result<(), ()>)
        requires
            old(self).wf(),
        ensures
            final(self).wf(),
            keeps_queue(old(self), final(self)),
            old(self).is_over() ==> r is Err && final(self).cells() == old(self).cells()
                && final(self).active() == old(self).active(),
            !old(self).is_over() ==> match spin_result(old(self).cells(), old(self).active(), spin_direction) {
                Some(gm) => r is Ok && final(self).cells() == gm.0 && final(self).active() == gm.1,
                None => r is Err && final(self).cells() == old(self).cells() && final(self).active()
                    == old(self).active(),
            },
    {
        if self.game_over {
            return Err(());
        }
        let ghost g0 = self.field@;
        let ghost m0 = self.active_piece@;
        proof {
            lemma_resting_bounded(m0);
        }
        if let Ok(turned) = self.check_spin(&self.active_piece, spin_direction) {
            proof {
                lemma_spin_keeps_resting(m0, spin_direction);
                lemma_painted_shows(g0, m0, turned@);
                lemma_painted_touch(g0, m0, turned@);
            }
            self.field.repaint(&self.active_piece, &turned);
            self.active_piece = turned;
            return Ok(());
        }
        let up = match Self::check_move(&self.field, &self.active_piece, Direction::Up) {
            Ok(u) => u,
            Err(_) => {
                return Err(());
            },
        };
        proof {
            lemma_up_bounded(m0);
            lemma_kick_check(g0, m0, up@, crate::piece::spun(up@, spin_direction));
        }
        match self.check_spin(&up, spin_direction) {
            Ok(kicked) => {
                proof {
                    lemma_spin_keeps_resting(up@, spin_direction);
                }
                self.field.repaint(&self.active_piece, &up);
                let ghost g1 = self.field@;
                self.field.repaint(&up, &kicked);
                proof {
                    lemma_painted_shows(g1, up@, kicked@);
                    lemma_painted_touch(g0, m0, up@);
                    lemma_painted_touch(g1, up@, kicked@);
                }
                self.active_piece = kicked;
                Ok(())
            },
            Err(_) => Err(()),
        }
    }

    /// `piece` turned a quarter, where every turned cell lies on the
    /// playfield and can take it once the active piece's cells are cleared.
    fn check_spin(&self, piece: &PhysicalTetromino, spin_direction: SpinDirection) -> (r: Result<
        PhysicalTetromino,
        (),
    >)
        requires
            self.field.wf(),
            crate::piece::bounded(piece@),
        ensures
            match r {
                Ok(t) => t@ == crate::piece::spun(piece@, spin_direction) && accepts_inside(
                    filled(self.field@, self.active_piece@, CellStatus::Empty),
                    t@,
                ),
                Err(_) => !accepts_inside(
                    filled(self.field@, self.active_piece@, CellStatus::Empty),
                    crate::piece::spun(piece@, spin_direction),
                ),
            },
    {
        let mut turned = *piece;
        turned.spin(spin_direction);
        if self.field.accepts_piece(&self.active_piece, &turned, true) {
            Ok(turned)
        } else {
            Err(())
        }
    }

    /// Turns the active piece clockwise where the rules allow it, trying
    /// once more one row higher; otherwise nothing changes.
    pub fn spin_clock_90(&mut self)
        requires
            old(self).wf(),
        ensures
            final(self).wf(),
            keeps_queue(old(self), final(self)),
            !old(self).is_over() ==> match spin_result(old(self).cells(), old(self).active(), SpinDirection::Clockwise) {
                Some(gm) => final(self).cells() == gm.0 && final(self).active() == gm.1,
                None => final(self).cells() == old(self).cells() && final(self).active() == old(self).active(),
            },
            old(self).is_over() ==> final(self).cells() == old(self).cells() && final(self).active() == old(self).active(),
    {
        let _ = self.try_spin(SpinDirection::Clockwise);
    }

    /// Turns the active piece counter-clockwise where the rules allow it,
    /// trying once more one row higher; otherwise nothing changes.
    pub fn spin_counter_90(&mut self)
        requires
            old(self).wf(),
        ensures
            final(self).wf(),
            keeps_queue(old(self), final(self)),
            !old(self).is_over() ==> match spin_result(old(self).cells(), old(self).active(), SpinDirection::CounterClockwise) {
                Some(gm) => final(self).cells() == gm.0 && final(self).active() == gm.1,
                None => final(self).cells() == old(self).cells() && final(self).active() == old(self).active(),
            },
            old(self).is_over() ==> final(self).cells() == old(self).cells() && final(self).active() == old(self).active(),
    {
        let _ = self.try_spin(SpinDirection::CounterClockwise);
    }

    /// Locks the active piece where it stands: clears the full rows, then
    /// lets the next kind enter and deals a new next kind.
    fn lock_and_spawn(&mut self) -> (r: Result<u32, ()>)
        requires
            old(self).wf(),
            !old(self).is_over(),
        ensures
            final(self).wf(),
            locked_then_spawned(old(self), old(self).cells(), final(self), match r {
                Ok(n) => Some(n),
                Err(_) => None,
            }),
            r matches Ok(n) ==> n <= 4,
    {
        proof {
            lemma_at_most_four_full(self.field@, self.active_piece@);
        }
        self.switched_since_lock = false;
        let n = self.field.check_for_lines_and_clear();
        match Self::place_tetromino_on_field(&mut self.field, self.next_piece.tetromino) {
            Ok(p) => {
                self.active_piece = p;
                self.next_piece = tetromino_to_physical(self.iterator.next());
                Ok(n)
            },
            Err(_) => {
                self.game_over = true;
                Err(())
            },
        }
    }

    /// Moves the active piece down one row. Where that is refused the piece
    /// locks (see [`locked_then_spawned`]): the result is
    /// `Ok((false, Some(lines)))`, or `Err(())` when the next piece cannot
    /// enter and the session is over. A piece that fell gives
    /// `Ok((true, None))`. An ended session gives `Err(())` and nothing
    /// changes.
    pub fn drop(&mut self) -> (r: Result<(bool, Option<u32>), ()>)
        requires
            old(self).wf(),
        ensures
            final(self).wf(),
            old(self).is_over() ==> r is Err && final(self).cells() == old(self).cells()
                && final(self).active() == old(self).active() && keeps_queue(old(self), final(self)),
            !old(self).is_over() ==> match move_target(old(self).cells(), old(self).active(), Direction::Down) {
                Some(d) => {
                    &&& r == Ok::<(bool, Option<u32>), ()>((true, None))
                    &&& final(self).active() == d
                    &&& final(self).cells() == painted(old(self).cells(), old(self).active(), d)
                    &&& keeps_queue(old(self), final(self))
                },
                None => {
                    &&& r is Ok ==> !r->Ok_0.0 && r->Ok_0.1 is Some
                    &&& r matches Ok((_, Some(n))) ==> n <= 4
                    &&& locked_then_spawned(old(self), old(self).cells(), final(self), match r {
                        Ok(v) => v.1,
                        Err(_) => None,
                    })
                },
            },
    {
        if self.game_over {
            return Err(());
        }
        proof {
            lemma_resting_bounded(self.active_piece@);
        }
        let ghost g0 = self.field@;
        let ghost m0 = self.active_piece@;
        match Self::try_move(&mut self.field, &mut self.active_piece, Direction::Down) {
            Ok(_) => {
                proof {
                    lemma_move_keeps_resting(m0, Direction::Down);
                    lemma_painted_shows(g0, m0, self.active_piece@);
                    lemma_painted_touch(g0, m0, self.active_piece@);
                }
                Ok((true, None))
            },
            Err(_) => match self.lock_and_spawn() {
                Ok(n) => Ok((false, Some(n))),
                Err(_) => Err(()),
            },
        }
    }

    /// Moves the active piece down until a step is refused, then locks it
    /// as [`Tetris::drop`] does. The result is `Ok((rows fallen, lines
    /// cleared))`, or `Err(())` when the next piece cannot enter; an ended
    /// session gives `Err(())` and nothing changes.
    pub fn drop_completely_down(&mut self) -> (r: Result<(u32, u32), ()>)
        requires
            old(self).wf(),
        ensures
            final(self).wf(),
            old(self).is_over() ==> r is Err && final(self).cells() == old(self).cells()
                && final(self).active() == old(self).active() && keeps_queue(old(self), final(self)),
            !old(self).is_over() ==> {
                let l = landing(old(self).cells(), old(self).active());
                &&& r is Ok ==> r->Ok_0.0 == l.2
                &&& r matches Ok((_, n)) ==> n <= 4
                &&& locked_then_spawned(old(self), l.0, final(self), match r {
                    Ok(v) => Some(v.1),
                    Err(_) => None,
                })
            },
    {
        if self.game_over {
            return Err(());
        }
        let ghost g0 = self.field@;
        let ghost m0 = self.active_piece@;
        let ghost before = *self;
        let mut fallen: u32 = 0;
        let mut falling = true;
        while falling
            invariant
                self.wf(),
                !self.is_over(),
                keeps_queue(&before, self),
                self.next_piece == before.next_piece,
                landing(self.cells(), self.active()).0 == landing(g0, m0).0,
                landing(self.cells(), self.active()).1 == landing(g0, m0).1,
                fallen + landing(self.cells(), self.active()).2 == landing(g0, m0).2,
                fallen + self.active().cells[0].1 == m0.cells[0].1,
                0 <= m0.cells[0].1 < height() + 2,
                !falling ==> move_target(self.cells(), self.active(), Direction::Down) is None,
            decreases self.active().cells[0].1 + if falling {
                1int
            } else {
                0int
            },
        {
            proof {
                lemma_resting_bounded(self.active_piece@);
            }
            let ghost g1 = self.field@;
            let ghost m1 = self.active_piece@;
            match Self::try_move(&mut self.field, &mut self.active_piece, Direction::Down) {
                Ok(_) => {
                    proof {
                        lemma_move_keeps_resting(m1, Direction::Down);
                        lemma_painted_shows(g1, m1, self.active_piece@);
                        lemma_painted_touch(g1, m1, self.active_piece@);
                        assert(m1.cells[0].1 >= 1);
                    }
                    fallen = fallen + 1;
                },
                Err(_) => {
                    falling = false;
                },
            }
        }
        match self.lock_and_spawn() {
            Ok(n) => Ok((fallen, n)),
            Err(_) => Err(()),
        }
    }

    /// Swaps the active piece with the held one, once between two locks:
    /// the active piece leaves the playfield, a piece of the held kind
    /// enters (see [`placed`]) and the active kind is held. Refused, with
    /// nothing changed, after a swap since the last lock or once the
    /// session is over. Where the held piece cannot enter, the session is
    /// over: the result is `Err(())` and only the active piece's cells have
    /// been cleared.
    pub fn try_switch_active_piece(&mut self) -> (r: Result<(), ()>)
        requires
            old(self).wf(),
        ensures
            final(self).wf(),
            old(self).is_over() || old(self).swapped() ==> {
                &&& r is Err
                &&& final(self).cells() == old(self).cells()
                &&& final(self).active() == old(self).active()
                &&& keeps_queue(old(self), final(self))
            },
            !(old(self).is_over() || old(self).swapped()) ==> {
                let g1 = filled(old(self).cells(), old(self).active(), CellStatus::Empty);
                &&& final(self).next_kind() == old(self).next_kind()
                &&& final(self).history() == old(self).history()
                &&& match placed(g1, old(self).held_kind()) {
                    Some(gm) => {
                        &&& r is Ok
                        &&& final(self).swapped()
                        &&& !final(self).is_over()
                        &&& final(self).held_kind() == old(self).active().kind
                        &&& final(self).cells() == gm.0
                        &&& final(self).active() == gm.1
                    },
                    None => {
                        &&& r is Err
                        &&& final(self).is_over()
                        &&& final(self).cells() == g1
                        &&& final(self).held_kind() == old(self).held_kind()
                    },
                }
            },
    {
        if self.game_over || self.switched_since_lock {
            return Err(());
        }
        proof {
            lemma_cleared_no_full(self.field@, self.active_piece@);
        }
        self.field.fill_cells(&self.active_piece, CellStatus::Empty);
        let old_active = self.active_piece.tetromino;
        match Self::place_tetromino_on_field(&mut self.field, self.stored_piece.tetromino) {
            Ok(p) => {
                self.active_piece = p;
                self.stored_piece = tetromino_to_physical(old_active);
                self.switched_since_lock = true;
                Ok(())
            },
            Err(_) => {
                self.game_over = true;
                Err(())
            },
        }
    }

    /// Every occupied cell of the playfield with its column and row.
    pub fn get_block_list(&self) -> (r: Vec<(CellStatus, u32, u32)>)
        requires
            self.wf(),
        ensures
            r@ == occupied_cells(self.cells()),
    {
        let ghost g = self.field@;
        let mut v: Vec<(CellStatus, u32, u32)> = Vec::new();
        let mut i: usize = 0;
        while i < crate::field::TETRIS_FIELD_LENGTH
            invariant
                self.wf(),
                g == self.field@,
                g.len() == crate::field::TETRIS_FIELD_LENGTH,
                0 <= i <= crate::field::TETRIS_FIELD_LENGTH,
                v@ == occupied_prefix(g, i as int),
            decreases crate::field::TETRIS_FIELD_LENGTH - i,
        {
            let x = (i % TETRIS_FIELD_DEFAULT_WIDTH as usize) as u32;
            let y = (i / TETRIS_FIELD_DEFAULT_WIDTH as usize) as u32;
            let elem = match self.field.get(x as i32, y as i32) {
                Some(c) => c,
                None => CellStatus::Empty,
            };
            proof {
                crate::field::lemma_index(i as int, x as int, y as int);
                assert(listing(g).take(i + 1) =~= listing(g).take(i as int).push(
                    listing(g)[i as int],
                ));
                listing(g).take(i as int).lemma_filter_push(
                    listing(g)[i as int],
                    |t: (CellStatus, u32, u32)| t.0 != CellStatus::Empty,
                );
            }
            if elem != CellStatus::Empty {
                v.push((elem, x, y));
            }
            i = i + 1;
        }
        proof {
            assert(listing(g).take(g.len() as int) =~= listing(g));
        }
        v
    }

    /// The cells of the next piece, in its own frame, with its colour.
    pub fn get_next_block_list(&self) -> (r: [(CellStatus, u32, u32); 4])
        requires
            self.wf(),
        ensures
            r@ == listed(base_piece(self.next_kind(), color_of(self.next_kind()))),
    {
        Self::block_list_of(&self.next_piece)
    }

    /// The cells of the held piece, in its own frame, with its colour.
    pub fn get_stored_block_list(&self) -> (r: [(CellStatus, u32, u32); 4])
        requires
            self.wf(),
        ensures
            r@ == listed(base_piece(self.held_kind(), color_of(self.held_kind()))),
    {
        Self::block_list_of(&self.stored_piece)
    }

    fn block_list_of(p: &PhysicalTetromino) -> (r: [(CellStatus, u32, u32); 4])
        requires
            p@ == base_piece(p.tetromino, color_of(p.tetromino)),
        ensures
            r@ == listed(p@),
    {
        proof {
            crate::piece::lemma_view_cells(*p);
        }
        let c = p.coords;
        let r = [
            (p.color, c[0].x as u32, c[0].y as u32),
            (p.color, c[1].x as u32, c[1].y as u32),
            (p.color, c[2].x as u32, c[2].y as u32),
            (p.color, c[3].x as u32, c[3].y as u32),
        ];
        assert(r@ =~= listed(p@));
        r
    }

    /// The cells the active piece would occupy if dropped as far as it
    /// goes (see [`ghost_drop`]); nothing changes.
    pub fn get_ghost_piece_list(&self) -> (r: Vec<(u32, u32)>)
        requires
            self.wf(),
        ensures
            r@ == positions(ghost_drop(self.cells(), self.active()).0),
    {
        let ghost g = self.field@;
        let ghost target = ghost_drop(g, self.active_piece@).0;
        let mut p = self.active_piece;
        let mut falling = true;
        while falling
            invariant
                self.wf(),
                g == self.field@,
                resting_ok(p@),
                ghost_drop(g, p@).0 == target,
                !falling ==> move_target(g, p@, Direction::Down) is None,
            decreases p@.cells[0].1 + if falling {
                1int
            } else {
                0int
            },
        {
            proof {
                lemma_resting_bounded(p@);
            }
            match Self::check_move(&self.field, &p, Direction::Down) {
                Ok(d) => {
                    proof {
                        lemma_move_keeps_resting(p@, Direction::Down);
                        assert(p@.cells[0].1 >= 1);
                    }
                    p = d;
                },
                Err(_) => {
                    falling = false;
                },
            }
        }
        proof {
            crate::piece::lemma_view_cells(p);
        }
        let mut v: Vec<(u32, u32)> = Vec::new();
        v.push((p.coords[0].x as u32, p.coords[0].y as u32));
        v.push((p.coords[1].x as u32, p.coords[1].y as u32));
        v.push((p.coords[2].x as u32, p.coords[2].y as u32));
        v.push((p.coords[3].x as u32, p.coords[3].y as u32));
        assert(v@ =~= positions(p@));
        v
    }

    /// The session has ended: a new piece could not enter.
    pub fn is_game_over(&self) -> (r: bool)
        ensures
            r == self.is_over(),
    {
        self.game_over
    }
}

/// A hard drop falls exactly the distance the ghost projection shows: the
/// rows fallen (the first part of `drop_completely_down`'s result) equal
/// the rows between each cell of the active piece and the same cell of the
/// ghost, and the piece locks where the ghost is.
pub proof fn lemma_hard_drop_matches_ghost(t: &Tetris)
    requires
        t.wf(),
        !t.is_over(),
    ensures
        landing(t.cells(), t.active()).1 == ghost_drop(t.cells(), t.active()).0,
        forall|i: int|
            0 <= i < 4 ==> t.active().cells[i].1 - landing(t.cells(), t.active()).2 == (#[trigger] ghost_drop(
                t.cells(),
                t.active(),
            ).0.cells[i]).1,
{
    lemma_landing_matches_ghost(t.cells(), t.active());
    lemma_ghost_below(t.cells(), t.active());
}

} // verus!
