use gem_match::board::{BoardError, GameBoard, BOARD_HEIGHT, BOARD_WIDTH};
use gem_match::detect::{find_matches, scan_line};
use gem_match::drag::{is_valid_swap, DragState};
use gem_match::engine::GameEngine;
use gem_match::gem::{Cell, GemType};
use gem_match::scoreboard::{Scoreboard, MAX_CLEARED};
use gem_match::systems::{
    cascade_round, clear_cells, fall_system, handle_drag_swap, match_system, refill_system, refill_with,
};

fn kind(i: usize) -> GemType {
    GemType::from_index(i)
}

fn board_from(rows: &[Vec<usize>]) -> GameBoard {
    let h = rows.len();
    let w = rows[0].len();
    let mut b = GameBoard::filled(w, h, Cell::Empty);
    for (y, row) in rows.iter().enumerate() {
        for (x, &k) in row.iter().enumerate() {
            b.set((x, y), Cell::Occupied(kind(k))).unwrap();
        }
    }
    b
}

/// An 8 by 8 board without any run: neighbours in a row differ by one kind,
/// in a column by two.
fn quiet_board() -> GameBoard {
    let rows: Vec<Vec<usize>> = (0..8).map(|y| (0..8).map(|x| (x + 2 * y) % 5).collect()).collect();
    board_from(&rows)
}

fn snapshot(b: &GameBoard) -> Vec<Cell> {
    let mut out = Vec::new();
    for y in 0..b.height() {
        for x in 0..b.width() {
            out.push(b.get((x, y)).unwrap());
        }
    }
    out
}

fn sorted(mut v: Vec<(usize, usize)>) -> Vec<(usize, usize)> {
    v.sort();
    v
}

const R: usize = 0;
const G: usize = 1;
const B: usize = 2;
const Y: usize = 3;
const P: usize = 4;

#[test]
fn three_by_three_clear_gravity_refill() {
    let mut board = board_from(&[vec![R, R, R], vec![G, B, G], vec![Y, B, P]]);
    assert_eq!(sorted(find_matches(&board)), vec![(0, 0), (1, 0), (2, 0)]);
    let mut score = Scoreboard::new();
    let cleared = match_system(&mut board, &mut score);
    assert_eq!(cleared.len(), 3);
    assert_eq!(board.get((1, 0)), Ok(Cell::Empty));
    fall_system(&mut board);
    let draws = vec![
        vec![GemType::Green, GemType::Red, GemType::Yellow],
        vec![GemType::Red; 3],
        vec![GemType::Red; 3],
    ];
    refill_with(&mut board, &draws);
    for c in snapshot(&board) {
        assert!(c.occupied());
    }
    assert_eq!(board.get((0, 0)), Ok(Cell::Occupied(GemType::Green)));
    assert_eq!(board.get((1, 1)), Ok(Cell::Occupied(GemType::Blue)));
    assert!(find_matches(&board).is_empty());
    assert_eq!(score.total_removed(), 3);
    assert_eq!(score.score(), 30);
}

#[test]
fn non_adjacent_swap_is_rejected() {
    let mut engine = GameEngine::with_board(quiet_board());
    let before = snapshot(&engine.board);
    engine.drag.press((0, 0));
    engine.drag.hover((2, 2));
    engine.drag.release();
    let settled = engine.tick();
    assert!(settled);
    assert_eq!(snapshot(&engine.board), before);
    assert_eq!(engine.drag, DragState::new());
    assert_eq!(engine.scoreboard.total_removed(), 0);
    assert_eq!(engine.scoreboard.score(), 0);
}

#[test]
fn adjacent_swap_makes_one_run_of_four() {
    let mut board = quiet_board();
    for (x, y, k) in [(3, 1, R), (3, 2, R), (3, 3, G), (3, 4, R), (4, 3, R)] {
        board.set((x, y), Cell::Occupied(kind(k))).unwrap();
    }
    assert!(find_matches(&board).is_empty());
    let mut drag = DragState::new();
    drag.press((3, 3));
    drag.hover((4, 3));
    drag.release();
    assert!(handle_drag_swap(&mut board, &mut drag));
    assert_eq!(drag, DragState::new());
    let found = find_matches(&board);
    assert_eq!(found.len(), 4);
    assert_eq!(sorted(found), vec![(3, 1), (3, 2), (3, 3), (3, 4)]);
}

#[test]
fn quiet_board_has_no_match() {
    assert!(find_matches(&quiet_board()).is_empty());
    let pairs = board_from(&[vec![R, R, G, G], vec![B, B, Y, Y], vec![R, R, G, G]]);
    assert!(find_matches(&pairs).is_empty());
}

#[test]
fn runs_of_four_and_five_reported_once() {
    let board = board_from(&[
        vec![R, R, R, R, R, G],
        vec![G, B, Y, P, B, G],
        vec![Y, P, B, G, Y, G],
        vec![B, Y, P, B, P, G],
    ]);
    let found = find_matches(&board);
    assert_eq!(
        sorted(found),
        vec![(0, 0), (1, 0), (2, 0), (3, 0), (4, 0), (5, 0), (5, 1), (5, 2), (5, 3)]
    );
}

#[test]
fn crossing_runs_share_their_cell_once() {
    let board = board_from(&[vec![G, R, B], vec![R, R, R], vec![Y, R, P]]);
    assert_eq!(sorted(find_matches(&board)), vec![(0, 1), (1, 0), (1, 1), (1, 2), (2, 1)]);
}

#[test]
fn empty_cells_never_match() {
    let board = GameBoard::filled(5, 5, Cell::Empty);
    assert!(find_matches(&board).is_empty());
}

#[test]
fn scan_marks_maximal_runs() {
    let o = |k: usize| Cell::Occupied(kind(k));
    let line = vec![o(R), o(R), o(G), o(G), o(G), o(G), Cell::Empty, Cell::Empty, Cell::Empty, o(B)];
    assert_eq!(
        scan_line(&line),
        vec![false, false, true, true, true, true, false, false, false, false]
    );
    assert!(scan_line(&Vec::new()).is_empty());
}

#[test]
fn only_orthogonal_neighbours_are_partners() {
    let a = (3, 3);
    assert!(is_valid_swap(a, (4, 3)));
    assert!(is_valid_swap(a, (2, 3)));
    assert!(is_valid_swap(a, (3, 4)));
    assert!(is_valid_swap(a, (3, 2)));
    assert!(!is_valid_swap(a, (3, 3)));
    assert!(!is_valid_swap(a, (4, 4)));
    assert!(!is_valid_swap(a, (2, 2)));
    assert!(!is_valid_swap(a, (5, 3)));
    assert!(!is_valid_swap(a, (3, 1)));
    assert!(is_valid_swap((0, 0), (1, 0)));
    assert!(!is_valid_swap((0, 0), (usize::MAX, 0)));
}

#[test]
fn gravity_compacts_each_column() {
    let o = |k: usize| Cell::Occupied(kind(k));
    let mut board = GameBoard::filled(2, 5, Cell::Empty);
    board.set((0, 0), o(R)).unwrap();
    board.set((0, 2), o(G)).unwrap();
    board.set((1, 1), o(B)).unwrap();
    board.set((1, 4), o(Y)).unwrap();
    fall_system(&mut board);
    let col0: Vec<Cell> = (0..5).map(|y| board.get((0, y)).unwrap()).collect();
    let col1: Vec<Cell> = (0..5).map(|y| board.get((1, y)).unwrap()).collect();
    assert_eq!(col0, vec![Cell::Empty, Cell::Empty, Cell::Empty, o(R), o(G)]);
    assert_eq!(col1, vec![Cell::Empty, Cell::Empty, Cell::Empty, o(B), o(Y)]);
}

#[test]
fn tick_leaves_a_full_settled_board() {
    fastrand::seed(7);
    let mut engine = GameEngine::new_random(8, 8);
    for _ in 0..5 {
        let settled = engine.tick();
        for c in snapshot(&engine.board) {
            assert!(c.occupied());
        }
        if settled {
            assert!(find_matches(&engine.board).is_empty());
        }
        assert_eq!(engine.scoreboard.score(), engine.scoreboard.total_removed() * 10);
    }
}

#[test]
fn tick_clears_and_scores_a_run() {
    let mut board = quiet_board();
    board.set((0, 0), Cell::Occupied(GemType::Blue)).unwrap();
    board.set((1, 0), Cell::Occupied(GemType::Blue)).unwrap();
    let mut engine = GameEngine::with_board(board);
    engine.tick();
    assert!(engine.scoreboard.total_removed() >= 3);
    assert_eq!(engine.scoreboard.score(), engine.scoreboard.total_removed() * 10);
    for c in snapshot(&engine.board) {
        assert!(c.occupied());
    }
}

#[test]
fn board_access_out_of_range() {
    let mut board = quiet_board();
    let before = snapshot(&board);
    assert_eq!(board.get((8, 0)), Err(BoardError::OutOfRange));
    assert_eq!(board.get((0, 8)), Err(BoardError::OutOfRange));
    assert_eq!(board.set((8, 8), Cell::Empty), Err(BoardError::OutOfRange));
    assert_eq!(board.swap((0, 0), (0, 8)), Err(BoardError::OutOfRange));
    assert_eq!(snapshot(&board), before);
    assert_eq!(board.swap((0, 0), (5, 7)), Ok(()));
    assert_eq!(board.get((0, 0)), Ok(before[7 * 8 + 5]));
    assert_eq!(board.get((5, 7)), Ok(before[0]));
}

#[test]
fn release_off_board_is_no_move() {
    let mut board = quiet_board();
    let before = snapshot(&board);
    let mut drag = DragState::new();
    drag.press((7, 0));
    drag.hover((8, 0));
    drag.release();
    assert!(!handle_drag_swap(&mut board, &mut drag));
    assert_eq!(snapshot(&board), before);
    assert_eq!(drag, DragState::new());
}

#[test]
fn gesture_state_machine() {
    let mut drag = DragState::default();
    drag.hover((1, 1));
    assert_eq!(drag, DragState::new());
    drag.press((2, 2));
    assert_eq!(drag.start, Some((2, 2)));
    assert!(drag.is_dragging);
    drag.hover((2, 3));
    assert_eq!(drag.end, Some((2, 3)));
    let mut board = quiet_board();
    assert!(!handle_drag_swap(&mut board, &mut drag));
    assert_eq!(drag.end, Some((2, 3)));
    drag.release();
    assert!(handle_drag_swap(&mut board, &mut drag));
    assert_eq!(drag, DragState::new());
}

#[test]
fn scoreboard_counts_ten_per_gem() {
    let mut s = Scoreboard::default();
    s.record_cleared(4);
    s.record_cleared(3);
    assert_eq!(s.total_removed(), 7);
    assert_eq!(s.score(), 70);
    s.record_cleared(usize::MAX);
    assert_eq!(s.total_removed(), MAX_CLEARED);
    assert_eq!(s.score(), MAX_CLEARED * 10);
}

#[test]
fn refill_keeps_gems_and_fills_gaps() {
    let mut board = board_from(&[vec![R, G], vec![B, Y]]);
    clear_cells(&mut board, &vec![(1, 0)]);
    assert_eq!(board.get((1, 0)), Ok(Cell::Empty));
    refill_with(&mut board, &vec![vec![GemType::Purple, GemType::Purple]; 2]);
    assert_eq!(board.get((0, 0)), Ok(Cell::Occupied(GemType::Red)));
    assert_eq!(board.get((1, 0)), Ok(Cell::Occupied(GemType::Purple)));
    clear_cells(&mut board, &vec![(0, 1), (1, 1)]);
    refill_system(&mut board);
    for c in snapshot(&board) {
        assert!(c.occupied());
    }
    assert_eq!(board.get((0, 0)), Ok(Cell::Occupied(GemType::Red)));
}

#[test]
fn random_boards_and_kinds() {
    fastrand::seed(11);
    let board = GameBoard::new_random(6, 4);
    assert_eq!(board.width(), 6);
    assert_eq!(board.height(), 4);
    for c in snapshot(&board) {
        assert!(c.occupied());
    }
    let mut seen = Vec::new();
    for _ in 0..200 {
        let g = GemType::random();
        if !seen.contains(&g) {
            seen.push(g);
        }
    }
    assert_eq!(seen.len(), 5);
}

#[test]
fn kinds_by_index() {
    assert_eq!(GemType::from_index(0), GemType::Red);
    assert_eq!(GemType::from_index(1), GemType::Green);
    assert_eq!(GemType::from_index(2), GemType::Blue);
    assert_eq!(GemType::from_index(3), GemType::Yellow);
    assert_eq!(GemType::from_index(4), GemType::Purple);
    assert_eq!(GemType::from_index(9), GemType::Purple);
}

#[test]
fn cascade_round_drops_refills_and_clears() {
    // Column 0 holds a gap under a red gem; the refill brings two more reds
    // on top, which then form a vertical run of three.
    let o = |k: usize| Cell::Occupied(kind(k));
    let mut board = GameBoard::filled(2, 3, Cell::Empty);
    board.set((0, 0), o(R)).unwrap();
    board.set((1, 0), o(G)).unwrap();
    board.set((1, 1), o(B)).unwrap();
    board.set((1, 2), o(Y)).unwrap();
    let mut score = Scoreboard::new();
    let draws = vec![vec![GemType::Red, GemType::Purple]; 3];
    let found = cascade_round(&mut board, &mut score, &draws);
    assert_eq!(sorted(found), vec![(0, 0), (0, 1), (0, 2)]);
    for y in 0..3 {
        assert_eq!(board.get((0, y)), Ok(Cell::Empty));
    }
    assert_eq!(board.get((1, 0)), Ok(o(G)));
    assert_eq!(score.total_removed(), 3);
    assert_eq!(score.score(), 30);
}

#[test]
fn cascade_round_without_match_only_fills() {
    let o = |k: usize| Cell::Occupied(kind(k));
    let mut board = board_from(&[vec![R, G], vec![G, R]]);
    clear_cells(&mut board, &vec![(1, 1)]);
    let mut score = Scoreboard::new();
    let found = cascade_round(&mut board, &mut score, &vec![vec![GemType::Blue; 2]; 2]);
    assert!(found.is_empty());
    assert_eq!(board.get((1, 0)), Ok(o(B)));
    assert_eq!(board.get((1, 1)), Ok(o(G)));
    assert_eq!(score.total_removed(), 0);
}

#[test]
fn tick_swaps_then_scores_the_run() {
    let mut board = quiet_board();
    for (x, y, k) in [(3, 1, R), (3, 2, R), (3, 3, G), (3, 4, R), (4, 3, R)] {
        board.set((x, y), Cell::Occupied(kind(k))).unwrap();
    }
    let mut engine = GameEngine::with_board(board);
    engine.drag.press((3, 3));
    engine.drag.hover((4, 3));
    engine.drag.release();
    engine.tick();
    assert!(engine.scoreboard.total_removed() >= 4);
    assert_eq!(engine.drag, DragState::new());
    for c in snapshot(&engine.board) {
        assert!(c.occupied());
    }
}

#[test]
fn pointer_frames_drive_the_gesture() {
    let mut drag = DragState::new();
    drag.pointer_frame(Some((2, 2)), true, false);
    assert_eq!(drag.start, Some((2, 2)));
    assert_eq!(drag.end, Some((2, 2)));
    assert!(drag.is_dragging);
    drag.pointer_frame(Some((3, 2)), false, false);
    assert_eq!(drag.end, Some((3, 2)));
    drag.pointer_frame(Some((3, 2)), false, true);
    assert!(!drag.is_dragging);
    let mut board = quiet_board();
    assert!(handle_drag_swap(&mut board, &mut drag));
}

#[test]
fn release_off_the_board_ends_the_gesture_without_a_move() {
    let mut drag = DragState::new();
    drag.pointer_frame(Some((2, 2)), true, false);
    drag.pointer_frame(Some((3, 2)), false, false);
    drag.pointer_frame(None, false, true);
    assert!(!drag.is_dragging);
    assert_eq!(drag.end, None);
    let mut board = quiet_board();
    let before = snapshot(&board);
    assert!(!handle_drag_swap(&mut board, &mut drag));
    assert_eq!(snapshot(&board), before);
    assert_eq!(drag, DragState::new());
    let mut idle = DragState::new();
    idle.pointer_frame(None, true, false);
    assert_eq!(idle, DragState::new());
}

#[test]
fn default_board_is_full_and_standard() {
    let board = GameBoard::default();
    assert_eq!(board.width(), BOARD_WIDTH);
    assert_eq!(board.height(), BOARD_HEIGHT);
    for c in snapshot(&board) {
        assert!(c.occupied());
    }
}

#[test]
fn off_board_frames_leave_the_gesture_alone() {
    let mut drag = DragState::new();
    drag.pointer_frame(Some((2, 2)), true, false);
    drag.pointer_frame(Some((2, 3)), false, false);
    let before = drag;
    drag.pointer_frame(None, false, false);
    assert_eq!(drag, before);
    drag.pointer_frame(None, true, false);
    assert_eq!(drag, before);
    drag.pointer_frame(Some((2, 3)), false, true);
    let mut board = quiet_board();
    assert!(handle_drag_swap(&mut board, &mut drag));
}

#[test]
fn board_from_given_kinds() {
    let draws = vec![
        vec![GemType::Red, GemType::Green, GemType::Blue],
        vec![GemType::Yellow, GemType::Purple, GemType::Red],
    ];
    let board = GameBoard::from_kinds(3, 2, &draws);
    assert_eq!(board.width(), 3);
    assert_eq!(board.height(), 2);
    assert_eq!(board.get((1, 0)), Ok(Cell::Occupied(GemType::Green)));
    assert_eq!(board.get((0, 1)), Ok(Cell::Occupied(GemType::Yellow)));
    assert_eq!(board.get((2, 1)), Ok(Cell::Occupied(GemType::Red)));
}

#[test]
fn settled_tick_reports_no_match_left() {
    fastrand::seed(3);
    let mut engine = GameEngine::new_random(8, 8);
    for _ in 0..5 {
        let settled = engine.tick();
        assert_eq!(settled, find_matches(&engine.board).is_empty());
    }
}
