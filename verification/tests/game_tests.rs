use tetrominal::board::{is_landed, is_occupied, Cell, Falling};
use tetrominal::clear::is_rows_in_well;
use tetrominal::game::{Game, Reaction};
use tetrominal::input::{command_for, game_over_choice, Command, GameOverChoice, KeyInput};
use tetrominal::shapes::{preview_shape, shape};
use tetrominal::timing::{gravity_interval_ms, level, line_points, points_fit, speed_index};
use tetrominal::vanish::keys_computable;

fn game(kind: usize, next: usize) -> Game {
    Game::new_with(kind, next)
}

fn full_row(y: i32, kind: usize) -> Vec<Cell> {
    (0..10).map(|x| (x, y, kind)).collect()
}

#[test]
fn rotation_table_entries() {
    assert_eq!(shape(0, 0), ((-1, 0), (0, 0), (1, 0), (2, 0)));
    assert_eq!(shape(0, 1), ((0, -1), (0, 0), (0, 1), (0, 2)));
    assert_eq!(shape(6, 3), ((0, 1), (0, 0), (1, 0), (1, -1)));
    assert_eq!(shape(3, 2), ((0, 0), (1, 0), (0, 1), (1, 1)));
    assert_eq!(preview_shape(5), ((-2, -1), (-2, 0), (-2, 1), (0, 1)));
    assert_eq!(preview_shape(0), ((-4, 0), (-2, 0), (0, 0), (2, 0)));
}

#[test]
fn new_game_starts_empty() {
    let g = game(2, 5);
    assert!(g.pieces.is_empty());
    assert_eq!(g.cur, Falling { x: 4, y: 0, kind: 2, rot: 0 });
    assert_eq!(g.next, 5);
    assert_eq!(g.hold, 7);
    assert_eq!(g.lines, 0);
    assert_eq!(g.score, 0);
}

#[test]
fn random_game_kinds_are_in_range() {
    for _ in 0..50 {
        let g = Game::new();
        assert!(g.cur.kind < 7 && g.next < 7);
        assert_eq!((g.cur.x, g.cur.y, g.cur.rot), (4, 0, 0));
    }
}

#[test]
fn random_next_kinds_vary() {
    let mut g = game(0, 0);
    let mut seen = [false; 7];
    for _ in 0..300 {
        g.pieces.clear();
        g.cur = Falling { x: 4, y: 17, kind: 0, rot: 0 };
        g.lock_and_spawn();
        assert!(g.next < 7);
        seen[g.next] = true;
    }
    assert!(seen.iter().filter(|s| **s).count() >= 2);
}

#[test]
fn occupancy_ignores_other_kinds() {
    let pieces: Vec<Cell> = vec![(3, 4, 2), (5, 6, 9)];
    assert!(is_occupied(&pieces, 3, 4));
    assert!(!is_occupied(&pieces, 4, 3));
    assert!(!is_occupied(&pieces, 5, 6));
}

#[test]
fn i_piece_rests_on_floor() {
    let mut g = game(0, 1);
    assert!(!g.is_landed());
    assert_eq!(g.ghost_row(), 17);
    let path = g.hard_drop();
    assert_eq!(path.len(), 17);
    assert_eq!(path[0].y, 1);
    assert_eq!(g.cur.y, 17);
    assert!(g.is_landed());
}

#[test]
fn o_piece_rests_one_row_higher() {
    let g = game(3, 1);
    assert_eq!(g.ghost_row(), 16);
}

#[test]
fn piece_rests_on_settled_square() {
    let mut g = game(0, 1);
    g.pieces.push((4, 10, 2));
    assert_eq!(g.ghost_row(), 9);
    let mut f = g.cur;
    f.y = 9;
    assert!(is_landed(&g.pieces, f));
    f.y = 8;
    assert!(!is_landed(&g.pieces, f));
}

#[test]
fn soft_drop_reports_landing() {
    let mut g = game(0, 1);
    g.cur.y = 15;
    assert!(!g.soft_drop());
    assert_eq!(g.cur.y, 16);
    assert!(g.soft_drop());
    assert_eq!(g.cur.y, 17);
}

#[test]
fn turn_inside_and_against_wall() {
    let mut g = game(0, 1);
    g.turn();
    assert_eq!(g.cur.rot, 1);
    g.cur.x = 8;
    g.turn();
    assert_eq!(g.cur.rot, 1);
    g.cur.x = 7;
    g.turn();
    assert_eq!(g.cur.rot, 2);
}

#[test]
fn turn_blocked_by_floor_and_squares() {
    let mut g = game(0, 1);
    g.cur = Falling { x: 4, y: 16, kind: 0, rot: 0 };
    g.turn();
    assert_eq!(g.cur.rot, 0);
    let mut h = game(0, 1);
    h.cur.y = 5;
    h.pieces.push((4, 4, 6));
    h.turn();
    assert_eq!(h.cur.rot, 0);
}

#[test]
fn steps_stop_at_walls() {
    let mut g = game(0, 1);
    g.cur.x = 6;
    g.step_right();
    assert_eq!(g.cur.x, 7);
    g.step_right();
    assert_eq!(g.cur.x, 7);
    g.cur.x = 2;
    g.step_left();
    assert_eq!(g.cur.x, 1);
    g.step_left();
    assert_eq!(g.cur.x, 1);
}

#[test]
fn steps_stop_at_squares_and_undo() {
    let mut g = game(0, 1);
    g.pieces.push((7, 0, 1));
    g.step_right();
    assert_eq!(g.cur.x, 4);
    g.step_left();
    assert_eq!(g.cur.x, 3);
    g.step_right();
    assert_eq!(g.cur.x, 4);
}

#[test]
fn settling_adds_four_squares() {
    let mut g = game(0, 3);
    g.cur.y = 17;
    let topped = g.lock_and_spawn_with(6);
    assert!(!topped);
    assert_eq!(g.pieces, vec![(3, 17, 0), (4, 17, 0), (5, 17, 0), (6, 17, 0)]);
    assert_eq!(g.cur, Falling { x: 4, y: 0, kind: 3, rot: 0 });
    assert_eq!(g.next, 6);
}

#[test]
fn settling_under_a_full_spawn_is_game_over() {
    let mut g = game(0, 3);
    g.pieces.push((5, 1, 1));
    g.cur.y = 17;
    assert!(g.lock_and_spawn_with(2));
}

#[test]
fn hold_twice_restores() {
    let mut g = game(2, 5);
    g.cur.x = 1;
    g.swap_hold();
    assert_eq!(g.cur, Falling { x: 4, y: 0, kind: 5, rot: 0 });
    assert_eq!(g.hold, 2);
    assert_eq!(g.next, 5);
    g.swap_hold();
    assert_eq!(g.cur.kind, 2);
    assert_eq!(g.hold, 5);
}

#[test]
fn restart_keeps_line_count() {
    let mut g = game(2, 5);
    g.lines = 12;
    g.score = 900;
    g.hold = 3;
    g.pieces.push((1, 1, 1));
    g.restart_with(4, 6);
    assert!(g.pieces.is_empty());
    assert_eq!(g.cur, Falling { x: 4, y: 0, kind: 6, rot: 0 });
    assert_eq!(g.next, 4);
    assert_eq!((g.hold, g.score, g.lines), (7, 0, 12));
    g.restart();
    assert!(g.cur.kind < 7 && g.next < 7);
}

#[test]
fn one_full_row_is_cleared() {
    let mut g = game(0, 1);
    g.pieces = full_row(17, 1);
    g.pieces.push((0, 16, 3));
    assert!(g.can_clear());
    let frames = g.clear_lines();
    assert_eq!(g.pieces, vec![(0, 17, 3)]);
    assert_eq!(g.lines, 1);
    assert_eq!(g.score, 100);
    assert_eq!(frames.len(), 5);
    assert_eq!((frames[0].col, frames[0].row, frames[0].pause, frames[0].lines), (0, 17, true, 0));
    let expect0: Vec<Cell> = vec![(0, 17, 1), (1, 17, 1), (2, 17, 1), (3, 17, 1), (6, 17, 1), (7, 17, 1), (8, 17, 1), (9, 17, 1), (0, 16, 3)];
    assert_eq!(frames[0].pieces, expect0);
    assert_eq!(frames[3].pieces, vec![(0, 17, 1), (9, 17, 1), (0, 16, 3)]);
    assert_eq!(frames[4].pieces, vec![(0, 17, 3)]);
    assert_eq!(frames[4].lines, 1);
}

#[test]
fn two_rows_score_with_level() {
    let mut g = game(0, 1);
    g.pieces = full_row(16, 2);
    g.pieces.extend(full_row(17, 4));
    g.lines = 9;
    g.score = 50;
    let frames = g.clear_lines();
    assert!(g.pieces.is_empty());
    assert_eq!(g.lines, 11);
    assert_eq!(g.score, 650);
    assert_eq!(frames.len(), 10);
    assert_eq!((frames[8].col, frames[8].row, frames[8].lines, frames[8].pause), (4, 16, 10, true));
    assert_eq!((frames[9].col, frames[9].row, frames[9].lines, frames[9].pause), (4, 17, 11, false));
    assert_eq!(frames[8].pieces, vec![(0, 17, 4), (9, 17, 4)]);
    assert_eq!(frames[9].pieces, Vec::<Cell>::new());
}

#[test]
fn rows_above_move_down() {
    let mut g = game(0, 1);
    g.pieces = vec![(3, 15, 0)];
    g.pieces.extend(full_row(16, 2));
    g.pieces.push((5, 17, 6));
    let frames = g.clear_lines();
    assert_eq!(g.pieces, vec![(3, 16, 0), (5, 17, 6)]);
    assert_eq!(g.lines, 1);
    assert_eq!(frames.len(), 5);
}

#[test]
fn four_rows_score_tetris() {
    let mut g = game(0, 1);
    g.pieces = Vec::new();
    for y in 14..18 {
        g.pieces.extend(full_row(y, 0));
    }
    g.pieces.push((2, 13, 5));
    g.clear_lines();
    assert_eq!(g.pieces, vec![(2, 17, 5)]);
    assert_eq!(g.lines, 4);
    assert_eq!(g.score, 800);
}

#[test]
fn eleventh_square_on_a_row_stays() {
    let mut g = game(0, 1);
    g.pieces = full_row(17, 1);
    g.pieces.push((9, 17, 4));
    g.clear_lines();
    assert_eq!(g.pieces, vec![(9, 17, 4)]);
    assert_eq!(g.lines, 1);
}

#[test]
fn no_full_row_changes_nothing() {
    let mut g = game(0, 1);
    g.pieces = vec![(0, 17, 1), (1, 17, 1)];
    g.score = 7;
    let frames = g.clear_lines();
    assert!(frames.is_empty());
    assert_eq!(g.pieces, vec![(0, 17, 1), (1, 17, 1)]);
    assert_eq!((g.lines, g.score), (0, 7));
}

#[test]
fn clear_needs_rows_in_the_well() {
    let mut g = game(0, 1);
    g.pieces = vec![(0, 18, 1)];
    assert!(!g.can_clear());
    assert!(!is_rows_in_well(&g.pieces));
    g.pieces = vec![(0, -1, 1)];
    assert!(!g.can_clear());
    g.pieces = vec![(0, 0, 1)];
    assert!(g.can_clear());
    g.pieces = full_row(17, 1);
    g.score = i32::MAX - 50;
    assert!(!g.can_clear());
}

#[test]
fn levels_and_speeds() {
    assert_eq!(level(0), 1);
    assert_eq!(level(9), 1);
    assert_eq!(level(10), 2);
    assert_eq!(level(-3), 1);
    assert_eq!(speed_index(25), 2);
    assert_eq!(speed_index(-25), 0);
    assert_eq!(gravity_interval_ms(0), 800);
    assert_eq!(gravity_interval_ms(9), 100);
    assert_eq!(gravity_interval_ms(12), 83);
    assert_eq!(gravity_interval_ms(28), 16);
}

#[test]
fn points_per_clear() {
    assert_eq!(line_points(1, 1), 100);
    assert_eq!(line_points(2, 2), 300);
    assert_eq!(line_points(3, 13), 1000);
    assert_eq!(line_points(4, 10), 1600);
    assert_eq!(line_points(5, 0), 0);
    assert_eq!(line_points(1, -1), 0);
    assert_eq!(line_points(1, -11), -100);
    assert!(points_fit(4, 20, 0));
    assert!(!points_fit(4, i32::MAX, 0));
}

#[test]
fn vanish_order_is_stable_by_row_then_column() {
    let mut g = game(0, 1);
    g.pieces = vec![(5, 17, 0), (0, 0, 1), (3, 2, 2), (10, 0, 4), (4, 1, 3), (0, 1, 5)];
    assert!(keys_computable(&g.pieces));
    g.sort_for_vanish();
    assert_eq!(g.pieces, vec![(0, 0, 1), (10, 0, 4), (0, 1, 5), (4, 1, 3), (3, 2, 2), (5, 17, 0)]);
    assert!(!keys_computable(&vec![(0, i32::MAX / 2, 0)]));
}

#[test]
fn key_bindings() {
    assert_eq!(command_for(KeyInput::Char('q')), Command::Quit);
    assert_eq!(command_for(KeyInput::Char(' ')), Command::Turn);
    assert_eq!(command_for(KeyInput::Char('d')), Command::Right);
    assert_eq!(command_for(KeyInput::Right), Command::Right);
    assert_eq!(command_for(KeyInput::Char('a')), Command::Left);
    assert_eq!(command_for(KeyInput::Left), Command::Left);
    assert_eq!(command_for(KeyInput::Down), Command::SoftDrop);
    assert_eq!(command_for(KeyInput::Char('s')), Command::SoftDrop);
    assert_eq!(command_for(KeyInput::Up), Command::HardDrop);
    assert_eq!(command_for(KeyInput::Char('w')), Command::HardDrop);
    assert_eq!(command_for(KeyInput::Char('h')), Command::Hold);
    assert_eq!(command_for(KeyInput::Char('x')), Command::Ignore);
    assert_eq!(command_for(KeyInput::Other), Command::Ignore);
    assert_eq!(game_over_choice(KeyInput::Char('q')), GameOverChoice::Quit);
    assert_eq!(game_over_choice(KeyInput::Char('r')), GameOverChoice::Restart);
    assert_eq!(game_over_choice(KeyInput::Up), GameOverChoice::Wait);
}

#[test]
fn commands_drive_the_game() {
    let mut g = game(0, 1);
    let (r, landed) = g.on_command(Command::Quit);
    assert!(matches!(r, Reaction::Quit));
    assert!(!landed);
    let (r, _) = g.on_command(Command::Ignore);
    assert!(matches!(r, Reaction::Nothing));
    let (r, landed) = g.on_command(Command::SoftDrop);
    assert!(matches!(r, Reaction::Redraw));
    assert!(!landed);
    assert_eq!(g.cur.y, 1);
    let (r, landed) = g.on_command(Command::HardDrop);
    assert!(!landed);
    match r {
        Reaction::Dropped(path) => assert_eq!(path.len(), 16),
        _ => panic!("expected a drop"),
    }
    assert_eq!(g.cur.y, 17);
    let (r, landed) = g.on_command(Command::SoftDrop);
    assert!(matches!(r, Reaction::Settle));
    assert!(!landed);
    let (r, landed) = g.on_command(Command::Right);
    assert!(matches!(r, Reaction::Redraw));
    assert!(landed);
    assert_eq!(g.cur.x, 5);
    let (r, _) = g.on_command(Command::Hold);
    assert!(matches!(r, Reaction::Redraw));
    assert_eq!((g.cur.kind, g.hold), (1, 0));
}

#[test]
fn gravity_steps() {
    let mut g = game(0, 1);
    assert!(!g.on_tick(false));
    assert_eq!(g.cur.y, 1);
    assert!(g.on_tick(true));
    assert_eq!(g.cur.y, 1);
}

#[test]
fn four_turns_in_open_space() {
    for kind in 0..7 {
        let mut g = game(kind, 1);
        g.cur.y = 5;
        let start = g.cur;
        for _ in 0..4 {
            g.turn();
        }
        assert_eq!(g.cur, start);
    }
}

#[test]
fn gravity_never_slows() {
    let mut last = u64::MAX;
    for lines in 0..290 {
        let ms = gravity_interval_ms(speed_index(lines));
        assert!(ms <= last);
        last = ms;
    }
}

#[test]
fn settled_piece_then_clear_leaves_no_full_row() {
    let mut g = game(0, 2);
    g.pieces = vec![(0, 17, 1), (1, 17, 1), (2, 17, 1), (7, 17, 1), (8, 17, 1), (9, 17, 1), (4, 16, 5)];
    g.cur.y = 16;
    g.hard_drop();
    assert_eq!(g.cur.y, 17);
    assert!(!g.lock_and_spawn_with(0));
    let frames = g.clear_lines();
    assert_eq!(frames.len(), 5);
    assert_eq!(g.pieces, vec![(4, 17, 5)]);
    assert_eq!((g.lines, g.score), (1, 100));
}

#[test]
fn ghost_marks_hard_drop_target() {
    let mut g = game(1, 2);
    g.pieces = vec![(3, 12, 0), (6, 9, 0)];
    g.cur.x = 5;
    let ghost = g.ghost_row();
    g.hard_drop();
    assert_eq!(g.cur.y, ghost);
}

#[test]
fn equal_squares_leave_in_list_order() {
    let mut g = game(0, 1);
    g.pieces = vec![(3, 17, 1), (0, 16, 2), (3, 17, 1)];
    for x in 0..10 {
        if x != 3 {
            g.pieces.push((x, 17, 1));
        }
    }
    let frames = g.clear_lines();
    assert_eq!(frames.len(), 5);
    assert_eq!(
        frames[0].pieces,
        vec![(0, 16, 2), (3, 17, 1), (0, 17, 1), (1, 17, 1), (2, 17, 1), (5, 17, 1), (6, 17, 1), (7, 17, 1), (8, 17, 1), (9, 17, 1)]
    );
    assert_eq!(
        frames[1].pieces,
        vec![(0, 16, 2), (0, 17, 1), (1, 17, 1), (2, 17, 1), (6, 17, 1), (7, 17, 1), (8, 17, 1), (9, 17, 1)]
    );
    assert_eq!(g.pieces, vec![(0, 17, 2), (9, 17, 1)]);
    assert_eq!(g.lines, 1);
}
