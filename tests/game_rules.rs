use rand::rngs::StdRng;
use rand::SeedableRng;
use tetris_core::{CellStatus, PhysicalTetromino, Pos2, SpinDirection, Tetris, TetrisField, Tetromino, TetrominoIterator};

const W: i32 = 10;
const H: i32 = 20;

fn session(seed: u64) -> Tetris {
    Tetris::new(StdRng::seed_from_u64(seed))
}

/// A session whose first piece has the given colour.
fn session_starting_with(color: CellStatus) -> Tetris {
    for seed in 0..500u64 {
        let t = session(seed);
        let blocks = t.get_block_list();
        if blocks.len() == 4 && blocks[0].0 == color {
            return t;
        }
    }
    panic!("no seed deals that piece first");
}

fn cells_of(p: &PhysicalTetromino) -> Vec<(i32, i32)> {
    p.coords.iter().map(|c| (c.x, c.y)).collect()
}

fn snapshot(f: &TetrisField) -> Vec<Option<CellStatus>> {
    let mut v = Vec::new();
    for y in -1..=H {
        for x in -1..=W {
            v.push(f.get(x, y));
        }
    }
    v
}

#[test]
fn grid_access_is_bounds_checked() {
    let mut f = TetrisField::new();
    assert_eq!(f.get(0, 0), Some(CellStatus::Empty));
    assert_eq!(f.get(9, 19), Some(CellStatus::Empty));
    assert_eq!(f.get(-1, 0), None);
    assert_eq!(f.get(10, 0), None);
    assert_eq!(f.get(0, 20), None);
    assert!(f.get_mut(0, -1).is_none());
    if let Some(c) = f.get_mut(3, 7) {
        *c = CellStatus::Blue;
    }
    assert_eq!(f.get(3, 7), Some(CellStatus::Blue));
    f.set(10, 3, CellStatus::Red);
    f.set(9, 3, CellStatus::Red);
    assert_eq!(f.get(9, 3), Some(CellStatus::Red));
    assert_eq!(f.get(8, 3), Some(CellStatus::Empty));
}

#[test]
fn line_piece_spawns_centered_on_top_row() {
    let mut f = TetrisField::new();
    let p = Tetris::place_tetromino_on_field(&mut f, Tetromino::Line).unwrap();
    assert_eq!(cells_of(&p), vec![(3, 19), (4, 19), (5, 19), (6, 19)]);
    for x in 0..W {
        let expected = if (3..=6).contains(&x) { CellStatus::Cyan } else { CellStatus::Empty };
        assert_eq!(f.get(x, 19), Some(expected));
        assert_eq!(f.get(x, 18), Some(CellStatus::Empty));
    }
}

#[test]
fn square_and_t_spawn_fully_visible() {
    let mut f = TetrisField::new();
    let o = Tetris::place_tetromino_on_field(&mut f, Tetromino::O).unwrap();
    assert_eq!(cells_of(&o), vec![(4, 18), (4, 19), (5, 18), (5, 19)]);
    assert_eq!(o.color, CellStatus::Yellow);
    let mut g = TetrisField::new();
    let t = Tetris::place_tetromino_on_field(&mut g, Tetromino::T).unwrap();
    assert_eq!(cells_of(&t), vec![(3, 18), (4, 18), (5, 18), (4, 19)]);
    assert_eq!(g.get(4, 19), Some(CellStatus::Purple));
}

#[test]
fn spawn_into_occupied_cells_fails_without_writing() {
    let mut f = TetrisField::new();
    for x in 0..W {
        f.set(x, 19, CellStatus::Red);
    }
    f.set(0, 19, CellStatus::Empty);
    let before = snapshot(&f);
    assert!(Tetris::place_tetromino_on_field(&mut f, Tetromino::O).is_err());
    assert!(snapshot(&f) == before);
    assert!(Tetris::place_tetromino_on_field(&mut f, Tetromino::Line).is_err());
    assert!(snapshot(&f) == before);
}

#[test]
fn spawn_stops_one_row_high_when_second_step_is_blocked() {
    let mut f = TetrisField::new();
    f.set(4, 18, CellStatus::Blue);
    let o = Tetris::place_tetromino_on_field(&mut f, Tetromino::O).unwrap();
    assert_eq!(cells_of(&o), vec![(4, 19), (4, 20), (5, 19), (5, 20)]);
    assert_eq!(f.get(4, 19), Some(CellStatus::Yellow));
    assert_eq!(f.get(4, 18), Some(CellStatus::Blue));
}

#[test]
fn game_over_when_next_piece_cannot_enter() {
    let mut t = session(3);
    let active: Vec<(u32, u32)> = t.get_block_list().iter().map(|b| (b.1, b.2)).collect();
    let active_color = t.get_block_list()[0].0;
    let next_color = t.get_next_block_list()[0].0;
    let wall = [
        CellStatus::Cyan,
        CellStatus::Yellow,
        CellStatus::Purple,
        CellStatus::Green,
        CellStatus::Red,
        CellStatus::Blue,
        CellStatus::Orange,
    ]
    .into_iter()
    .find(|c| *c != active_color && *c != next_color)
    .unwrap();
    for y in 0..H {
        for x in 1..W {
            if !active.contains(&(x as u32, y as u32)) {
                t.field.set(x, y, wall);
            }
        }
    }
    let before = snapshot(&t.field);
    assert_eq!(t.drop(), Err(()));
    assert!(t.is_game_over());
    assert!(snapshot(&t.field) == before);
    assert_eq!(t.drop(), Err(()));
    assert_eq!(t.drop_completely_down(), Err(()));
    assert_eq!(t.try_left(), Err(()));
    assert_eq!(t.try_right(), Err(()));
    assert_eq!(t.try_switch_active_piece(), Err(()));
    t.spin_clock_90();
    assert!(snapshot(&t.field) == before);
}

#[test]
fn bottom_row_completed_by_line_piece_is_cleared() {
    let mut t = session_starting_with(CellStatus::Cyan);
    for x in 0..9 {
        t.field.set(x, 0, CellStatus::Red);
    }
    assert_eq!(t.drop(), Ok((true, None)));
    assert_eq!(t.drop(), Ok((true, None)));
    assert_eq!(t.drop(), Ok((true, None)));
    t.spin_clock_90();
    let cells: Vec<(u32, u32)> = t
        .get_block_list()
        .iter()
        .filter(|b| b.0 == CellStatus::Cyan)
        .map(|b| (b.1, b.2))
        .collect();
    assert_eq!(cells, vec![(4, 14), (4, 15), (4, 16), (4, 17)]);
    for _ in 0..5 {
        assert_eq!(t.try_right(), Ok(()));
    }
    assert_eq!(t.try_right(), Err(()));
    assert_eq!(t.drop_completely_down(), Ok((14, 1)));
    for x in 0..9 {
        assert_eq!(t.field.get(x, 0), Some(CellStatus::Empty));
    }
    assert_eq!(t.field.get(9, 0), Some(CellStatus::Cyan));
    assert_eq!(t.field.get(9, 1), Some(CellStatus::Cyan));
    assert_eq!(t.field.get(9, 2), Some(CellStatus::Cyan));
    assert_eq!(t.field.get(9, 3), Some(CellStatus::Empty));
}

#[test]
fn collapse_moves_rows_down_and_empties_top() {
    let mut f = TetrisField::new();
    for x in 0..9 {
        f.set(x, 0, CellStatus::Red);
    }
    f.set(2, 1, CellStatus::Blue);
    f.set(7, 1, CellStatus::Green);
    f.set(5, 19, CellStatus::Orange);
    assert_eq!(f.check_line_clearing(), None);
    f.set(9, 0, CellStatus::Cyan);
    let row1: Vec<_> = (0..W).map(|x| f.get(x, 1)).collect();
    assert_eq!(f.check_for_lines_and_clear(), 1);
    let row0: Vec<_> = (0..W).map(|x| f.get(x, 0)).collect();
    assert_eq!(row0, row1);
    assert_eq!(f.get(5, 18), Some(CellStatus::Orange));
    for x in 0..W {
        assert_eq!(f.get(x, 19), Some(CellStatus::Empty));
    }
}

#[test]
fn line_scan_twice_gives_same_result() {
    let mut f = TetrisField::new();
    for x in 0..W {
        f.set(x, 3, CellStatus::Green);
        f.set(x, 7, CellStatus::Red);
    }
    f.set(4, 8, CellStatus::Blue);
    assert_eq!(f.check_line_clearing(), Some(3));
    assert_eq!(f.check_line_clearing(), Some(3));
    assert_eq!(f.check_for_lines_and_clear(), 2);
    assert_eq!(f.check_line_clearing(), None);
    assert_eq!(f.check_line_clearing(), None);
    let once = snapshot(&f);
    assert_eq!(f.check_for_lines_and_clear(), 0);
    assert!(snapshot(&f) == once);
    assert_eq!(f.get(4, 6), Some(CellStatus::Blue));
}

#[test]
fn non_contiguous_full_rows_all_clear() {
    let mut f = TetrisField::new();
    for x in 0..W {
        f.set(x, 0, CellStatus::Green);
        f.set(x, 2, CellStatus::Green);
        f.set(x, 4, CellStatus::Green);
        f.set(x, 5, CellStatus::Green);
    }
    f.set(0, 1, CellStatus::Blue);
    f.set(1, 3, CellStatus::Red);
    f.set(2, 6, CellStatus::Orange);
    assert_eq!(f.check_for_lines_and_clear(), 4);
    assert_eq!(f.get(0, 0), Some(CellStatus::Blue));
    assert_eq!(f.get(1, 1), Some(CellStatus::Red));
    assert_eq!(f.get(2, 2), Some(CellStatus::Orange));
    assert_eq!(f.get(3, 0), Some(CellStatus::Empty));
    assert_eq!(f.check_line_clearing(), None);
}

#[test]
fn four_lines_with_one_vertical_line_piece() {
    let mut t = session_starting_with(CellStatus::Cyan);
    for y in 0..4 {
        for x in 0..9 {
            t.field.set(x, y, CellStatus::Red);
        }
    }
    for _ in 0..3 {
        assert_eq!(t.drop(), Ok((true, None)));
    }
    t.spin_clock_90();
    for _ in 0..5 {
        assert_eq!(t.try_right(), Ok(()));
    }
    assert_eq!(t.drop_completely_down(), Ok((14, 4)));
    for x in 0..W {
        for y in 0..4 {
            assert_eq!(t.field.get(x, y), Some(CellStatus::Empty));
        }
    }
}

#[test]
fn bag_deals_each_kind_once_per_seven() {
    let mut it = TetrominoIterator::new(StdRng::seed_from_u64(11));
    let kinds = Tetromino::all_tetromino_array();
    let dealt: Vec<Tetromino> = (0..70).map(|_| it.next()).collect();
    for k in kinds.iter() {
        assert_eq!(dealt.iter().filter(|d| *d == k).count(), 10);
    }
    for block in dealt.chunks(7) {
        for k in kinds.iter() {
            assert_eq!(block.iter().filter(|d| *d == k).count(), 1);
        }
    }
}

#[test]
fn bag_rounds_are_shuffled() {
    let unshuffled: Vec<Tetromino> = Tetromino::all_tetromino_array().iter().rev().cloned().collect();
    let mut differs = false;
    for seed in 0..10u64 {
        let mut it = TetrominoIterator::new(StdRng::seed_from_u64(seed));
        let first: Vec<Tetromino> = (0..7).map(|_| it.next()).collect();
        if first != unshuffled {
            differs = true;
        }
    }
    assert!(differs);
}

#[test]
fn session_deals_first_three_pieces_from_one_bag() {
    let t = session(5);
    let active = t.get_block_list()[0].0;
    let next = t.get_next_block_list()[0].0;
    let held = t.get_stored_block_list()[0].0;
    assert!(active != next && next != held && active != held);
    assert_eq!(t.get_block_list().len(), 4);
    assert!(!t.is_game_over());
}

#[test]
fn next_and_held_lists_are_in_piece_frame() {
    let t = session(8);
    for list in [t.get_next_block_list(), t.get_stored_block_list()] {
        let color = list[0].0;
        assert!(color != CellStatus::Empty);
        for b in list.iter() {
            assert_eq!(b.0, color);
            assert!(b.1 <= 3 && b.2 <= 1);
        }
        assert!(list.iter().any(|b| b.1 == 0 && b.2 == 0) || list.iter().any(|b| b.1 == 0 && b.2 == 1));
    }
}

#[test]
fn sideways_moves_keep_piece_on_grid_and_colored() {
    let mut t = session(21);
    let color = t.get_block_list()[0].0;
    let mut lefts = 0;
    while t.try_left().is_ok() {
        lefts += 1;
        let blocks = t.get_block_list();
        assert_eq!(blocks.len(), 4);
        assert!(blocks.iter().all(|b| b.0 == color && (b.1 as i32) < W && (b.2 as i32) < H));
    }
    assert!(lefts >= 3);
    assert!(t.get_block_list().iter().any(|b| b.1 == 0));
    let mut rights = 0;
    while t.try_right().is_ok() {
        rights += 1;
        let blocks = t.get_block_list();
        assert_eq!(blocks.len(), 4);
        assert!(blocks.iter().all(|b| b.0 == color && (b.1 as i32) < W));
    }
    assert!(rights >= 6);
    assert!(t.get_block_list().iter().any(|b| b.1 == 9));
}

#[test]
fn move_blocked_by_other_color() {
    let mut t = session_starting_with(CellStatus::Cyan);
    t.field.set(2, 19, CellStatus::Red);
    assert_eq!(t.try_left(), Err(()));
    let cells: Vec<(u32, u32)> = t.get_block_list().iter().filter(|b| b.0 == CellStatus::Cyan).map(|b| (b.1, b.2)).collect();
    assert_eq!(cells, vec![(3, 19), (4, 19), (5, 19), (6, 19)]);
}

#[test]
fn hard_drop_falls_the_ghost_distance() {
    let mut t = session(4);
    let color = t.get_block_list()[0].0;
    let other = if color == CellStatus::Red { CellStatus::Blue } else { CellStatus::Red };
    t.field.set(0, 2, other);
    t.field.set(5, 6, other);
    let active: Vec<(u32, u32)> = t.get_block_list().iter().filter(|b| b.0 == color).map(|b| (b.1, b.2)).collect();
    let ghost = t.get_ghost_piece_list();
    assert_eq!(ghost.len(), 4);
    let min_active = active.iter().map(|c| c.1).min().unwrap();
    let min_ghost = ghost.iter().map(|c| c.1).min().unwrap();
    let distance = min_active - min_ghost;
    assert!(distance > 0);
    let mut shifted: Vec<(u32, u32)> = ghost.iter().map(|c| (c.0, c.1 + distance)).collect();
    shifted.sort();
    let mut sorted_active = active.clone();
    sorted_active.sort();
    assert_eq!(shifted, sorted_active);
    assert_eq!(t.get_block_list().len(), 6);
    let r = t.drop_completely_down();
    assert_eq!(r, Ok((distance, 0)));
    for c in ghost.iter() {
        assert_eq!(t.field.get(c.0 as i32, c.1 as i32), Some(color));
    }
}

#[test]
fn ghost_query_changes_nothing() {
    let t = session(9);
    let before = t.get_block_list();
    let g1 = t.get_ghost_piece_list();
    let g2 = t.get_ghost_piece_list();
    assert_eq!(g1, g2);
    assert_eq!(t.get_block_list(), before);
}

#[test]
fn drop_on_empty_board_falls_then_locks() {
    let mut t = session(2);
    let mut falls = 0;
    loop {
        match t.drop() {
            Ok((true, None)) => falls += 1,
            Ok((false, Some(lines))) => {
                assert_eq!(lines, 0);
                break;
            }
            other => panic!("unexpected {:?}", other),
        }
    }
    assert!(falls >= 17 && falls <= 19);
    assert_eq!(t.get_block_list().len(), 8);
}

#[test]
fn second_hold_before_lock_is_refused() {
    let mut t = session(6);
    let held_before = t.get_stored_block_list();
    let active_color = t.get_block_list()[0].0;
    assert_eq!(t.try_switch_active_piece(), Ok(()));
    let blocks = t.get_block_list();
    let held = t.get_stored_block_list();
    let next = t.get_next_block_list();
    assert_eq!(held[0].0, active_color);
    assert_eq!(blocks[0].0, held_before[0].0);
    assert_eq!(t.try_switch_active_piece(), Err(()));
    assert_eq!(t.get_block_list(), blocks);
    assert_eq!(t.get_stored_block_list(), held);
    assert_eq!(t.get_next_block_list(), next);
    assert!(t.drop_completely_down().is_ok());
    assert_eq!(t.try_switch_active_piece(), Ok(()));
}

#[test]
fn four_clockwise_turns_restore_every_piece() {
    let kinds = Tetromino::all_tetromino_array();
    for k in kinds.iter() {
        let start = tetris_core::piece::tetromino_to_physical(*k).plus(Pos2::new(4, 8));
        let mut p = start;
        for _ in 0..4 {
            p.spin(SpinDirection::Clockwise);
        }
        assert_eq!(cells_of(&p), cells_of(&start));
        let mut q = start;
        for _ in 0..4 {
            q.spin(SpinDirection::CounterClockwise);
        }
        assert_eq!(cells_of(&q), cells_of(&start));
    }
}

#[test]
fn turn_truncates_toward_zero() {
    let mut j = tetris_core::piece::tetromino_to_physical(Tetromino::J);
    j.spin(SpinDirection::Clockwise);
    assert_eq!(cells_of(&j), vec![(0, 1), (1, 1), (0, 0), (0, 0)]);
    let mut line = tetris_core::piece::tetromino_to_physical(Tetromino::Line).plus(Pos2::new(3, 19));
    line.spin(SpinDirection::Clockwise);
    assert_eq!(cells_of(&line), vec![(4, 20), (4, 19), (4, 18), (4, 17)]);
}

#[test]
fn spin_kicks_up_one_row_and_truncates_toward_zero() {
    let mut t = session_starting_with(CellStatus::Cyan);
    for _ in 0..19 {
        assert_eq!(t.drop(), Ok((true, None)));
    }
    t.spin_clock_90();
    let cells: Vec<(u32, u32)> = t.get_block_list().iter().filter(|b| b.0 == CellStatus::Cyan).map(|b| (b.1, b.2)).collect();
    assert_eq!(cells, vec![(4, 0), (4, 1), (4, 2)]);
}

#[test]
fn spin_refused_leaves_piece_in_place() {
    let mut t = session_starting_with(CellStatus::Cyan);
    let before = t.get_block_list();
    t.spin_counter_90();
    assert_eq!(t.get_block_list(), before);
}

#[test]
fn hold_whose_piece_cannot_enter_ends_session() {
    let mut t = session_starting_with(CellStatus::Purple);
    let active: Vec<(u32, u32)> = t.get_block_list().iter().map(|b| (b.1, b.2)).collect();
    let held_color = t.get_stored_block_list()[0].0;
    let wall = if held_color == CellStatus::Red { CellStatus::Blue } else { CellStatus::Red };
    for y in 0..H {
        for x in 1..W {
            if !active.contains(&(x as u32, y as u32)) {
                t.field.set(x, y, wall);
            }
        }
    }
    assert_eq!(t.try_switch_active_piece(), Err(()));
    assert!(t.is_game_over());
    for (x, y) in active.iter() {
        assert_eq!(t.field.get(*x as i32, *y as i32), Some(CellStatus::Empty));
    }
    assert_eq!(t.field.get(0, 0), Some(CellStatus::Empty));
    assert_eq!(t.field.get(1, 0), Some(wall));
    assert_eq!(t.get_stored_block_list()[0].0, held_color);
    assert_eq!(t.try_switch_active_piece(), Err(()));
}
