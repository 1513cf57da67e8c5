use minesweeper::{get_coords, CellState, Game, GameError, GameState};
use rand::rngs::StdRng;
use rand::SeedableRng;

/// A 5 by 5 board without mines but those at the given indices.
fn board_with(mines: &[usize]) -> Game {
    let mut game = Game::new(5, 5).unwrap();
    game.clear();
    for &m in mines {
        game.set_mine(m, true).unwrap();
    }
    game
}

fn cells_of(game: &Game) -> Vec<CellState> {
    let size = game.width() as usize * game.height() as usize;
    (0..size).map(|i| game.cell_at(i).unwrap()).collect()
}

fn count_mines(game: &Game) -> usize {
    cells_of(game).iter().filter(|c| **c == CellState::Unknown(true)).count()
}

#[test]
fn density_follows_the_quadratic() {
    assert_eq!(3, Game::new(5, 5).unwrap().remaining());
    assert_eq!(6, Game::new(10, 5).unwrap().remaining());
    assert_eq!(12, Game::new(10, 10).unwrap().remaining());
    assert_eq!(10, Game::new(8, 10).unwrap().remaining());
    assert_eq!(26, Game::new(12, 16).unwrap().remaining());
    assert_eq!(110, Game::new(30, 18).unwrap().remaining());
    assert_eq!(2, Game::new(7, 1).unwrap().remaining());
    assert_eq!(1, Game::new(2, 1).unwrap().remaining());
}

#[test]
fn new_places_exactly_the_mines_it_counts() {
    for (w, h) in [(2i16, 1i16), (3, 3), (5, 5), (10, 10), (30, 18), (64, 64)] {
        let game = Game::new(w, h).unwrap();
        assert_eq!(w, game.width());
        assert_eq!(h, game.height());
        assert_eq!(GameState::Initial, game.state());
        assert_eq!(game.total_mines(), game.remaining());
        assert_eq!(game.total_mines() as usize, count_mines(&game));
        assert!(cells_of(&game).iter().all(|c| matches!(c, CellState::Unknown(_))));
    }
}

#[test]
fn new_fills_the_fullest_board() {
    let game = Game::new(7, 647).unwrap();
    assert_eq!(4528, game.remaining());
    assert_eq!(4528, count_mines(&game));
}

#[test]
fn new_rejects_bad_dimensions() {
    assert_eq!(Some(GameError::InvalidDimensions), Game::new(0, 5).err());
    assert_eq!(Some(GameError::InvalidDimensions), Game::new(5, 0).err());
    assert_eq!(Some(GameError::InvalidDimensions), Game::new(-3, 4).err());
    assert_eq!(Some(GameError::InvalidDimensions), Game::new(4, -3).err());
    assert_eq!(Some(GameError::InvalidDimensions), Game::new(1, 1).err());
    assert_eq!(Some(GameError::InvalidDimensions), Game::new(10, 453).err());
    assert_eq!(Some(GameError::InvalidDimensions), Game::new(100, 100).err());
    assert_eq!(Some(GameError::InvalidDimensions), Game::new(i16::MAX, i16::MAX).err());
}

#[test]
fn same_seed_same_board() {
    let mut a = StdRng::seed_from_u64(7);
    let mut b = StdRng::seed_from_u64(7);
    let mut first = Game::with_rng(12, 16, &mut a).unwrap();
    let mut second = Game::with_rng(12, 16, &mut b).unwrap();
    assert_eq!(cells_of(&first), cells_of(&second));
    assert_eq!(26, count_mines(&first));
    first.reset_with(&mut a);
    second.reset_with(&mut b);
    assert_eq!(cells_of(&first), cells_of(&second));
    assert_eq!(26, count_mines(&first));
}

#[test]
fn reset_starts_over() {
    let mut game = Game::new(5, 5).unwrap();
    game.flag(0, 0).unwrap();
    game.flag(1, 0).unwrap();
    assert_eq!(1, game.remaining());
    game.reset();
    assert_eq!(3, game.remaining());
    assert_eq!(3, game.total_mines());
    assert_eq!(3, count_mines(&game));
    assert_eq!(GameState::Initial, game.state());
    assert!(cells_of(&game).iter().all(|c| matches!(c, CellState::Unknown(_))));
}

#[test]
fn clear_wipes_cells_and_keeps_counters() {
    let mut game = Game::new(5, 5).unwrap();
    game.flag(2, 2).unwrap();
    assert_eq!(GameState::Playing, game.state());
    game.clear();
    assert_eq!(GameState::Initial, game.state());
    assert_eq!(2, game.remaining());
    assert_eq!(3, game.total_mines());
    assert!(cells_of(&game).iter().all(|c| *c == CellState::Unknown(false)));
}

#[test]
fn coordinates_outside_the_board_are_refused() {
    let mut game = board_with(&[0]);
    let before = cells_of(&game);
    for (x, y) in [(-1i16, 0i16), (0, -1), (5, 0), (0, 5), (5, 5), (i16::MAX, i16::MIN)] {
        assert_eq!(Err(GameError::OutOfBounds), game.cell_state(x, y));
        assert_eq!(Err(GameError::OutOfBounds), game.is_mined(x, y));
        assert_eq!(Err(GameError::OutOfBounds), game.has_mine(x, y));
        assert_eq!(Err(GameError::OutOfBounds), game.neighbor_count(x, y));
        assert_eq!(Err(GameError::OutOfBounds), game.flag(x, y));
        assert_eq!(Err(GameError::OutOfBounds), game.question(x, y));
        assert_eq!(Err(GameError::OutOfBounds), game.set_unknown(x, y));
        assert_eq!(Err(GameError::OutOfBounds), game.toggle_mark(x, y));
        assert_eq!(Err(GameError::OutOfBounds), game.uncover(x, y));
        assert_eq!(Err(GameError::OutOfBounds), game.press(x, y));
    }
    assert_eq!(Err(GameError::OutOfBounds), game.cell_at(25));
    assert_eq!(Err(GameError::OutOfBounds), game.set_mine(25, true));
    assert_eq!(before, cells_of(&game));
    assert_eq!(GameState::Initial, game.state());
    assert_eq!(3, game.remaining());
}

#[test]
fn cell_state_reads_row_major() {
    let game = board_with(&[7]);
    assert_eq!(Ok(CellState::Unknown(true)), game.cell_state(2, 1));
    assert_eq!(Ok(CellState::Unknown(false)), game.cell_state(1, 2));
    assert_eq!(Ok(CellState::Unknown(true)), game.cell_at(7));
}

#[test]
fn neighbor_count_sees_marked_mines_only_while_hidden() {
    let mut game = board_with(&[0, 1, 2, 5, 7, 10, 11, 12]);
    assert_eq!(Ok(8), game.neighbor_count(1, 1));
    game.flag(0, 0).unwrap();
    game.question(1, 0).unwrap();
    assert_eq!(Ok(8), game.neighbor_count(1, 1));
    assert_eq!(Ok(GameState::Lost), game.uncover(2, 0));
    assert_eq!(Ok(CellState::Known(true)), game.cell_state(2, 0));
    assert_eq!(Ok(7), game.neighbor_count(1, 1));
    assert_eq!(Ok(true), game.has_mine(2, 0));
}

#[test]
fn neighbor_count_at_corners_and_edges() {
    let game = board_with(&[1, 5, 6, 24]);
    assert_eq!(Ok(3), game.neighbor_count(0, 0));
    assert_eq!(Ok(0), game.neighbor_count(4, 0));
    assert_eq!(Ok(1), game.neighbor_count(3, 4));
    assert_eq!(Ok(0), game.neighbor_count(4, 4));
    assert_eq!(Ok(1), game.neighbor_count(4, 3));
    assert_eq!(Ok(2), game.neighbor_count(0, 2));
}

#[test]
fn is_mined_overlooks_marked_mines() {
    let mut game = board_with(&[0, 1, 2]);
    assert_eq!(Ok(true), game.is_mined(0, 0));
    assert_eq!(Ok(false), game.is_mined(3, 0));
    game.flag(0, 0).unwrap();
    game.question(1, 0).unwrap();
    assert_eq!(Ok(false), game.is_mined(0, 0));
    assert_eq!(Ok(false), game.is_mined(1, 0));
    assert_eq!(Ok(true), game.has_mine(0, 0));
    assert_eq!(Ok(true), game.has_mine(1, 0));
    assert_eq!(Ok(false), game.has_mine(3, 0));
    game.uncover(2, 0).unwrap();
    assert_eq!(Ok(true), game.is_mined(2, 0));
}

#[test]
fn flag_question_unmark_keep_the_count() {
    let mut game = board_with(&[0]);
    assert_eq!(3, game.remaining());
    game.flag(0, 0).unwrap();
    assert_eq!(Ok(CellState::Flagged(true)), game.cell_state(0, 0));
    assert_eq!(2, game.remaining());
    assert_eq!(GameState::Playing, game.state());
    game.flag(0, 0).unwrap();
    assert_eq!(2, game.remaining());
    game.question(0, 0).unwrap();
    assert_eq!(Ok(CellState::Questioned(true)), game.cell_state(0, 0));
    assert_eq!(3, game.remaining());
    game.set_unknown(0, 0).unwrap();
    assert_eq!(Ok(CellState::Unknown(true)), game.cell_state(0, 0));
    assert_eq!(3, game.remaining());
    game.flag(3, 3).unwrap();
    assert_eq!(Ok(CellState::Flagged(false)), game.cell_state(3, 3));
    assert_eq!(2, game.remaining());
    game.set_unknown(3, 3).unwrap();
    assert_eq!(Ok(CellState::Unknown(false)), game.cell_state(3, 3));
    assert_eq!(3, game.remaining());
    game.question(4, 4).unwrap();
    assert_eq!(3, game.remaining());
    game.flag(4, 4).unwrap();
    assert_eq!(Ok(CellState::Flagged(false)), game.cell_state(4, 4));
    assert_eq!(2, game.remaining());
}

#[test]
fn remaining_stops_at_zero() {
    let mut game = board_with(&[]);
    game.flag(0, 0).unwrap();
    game.flag(1, 0).unwrap();
    game.flag(2, 0).unwrap();
    assert_eq!(0, game.remaining());
    game.flag(3, 0).unwrap();
    assert_eq!(0, game.remaining());
    assert_eq!(Ok(CellState::Flagged(false)), game.cell_state(3, 0));
    game.question(3, 0).unwrap();
    game.set_unknown(3, 0).unwrap();
    assert_eq!(1, game.remaining());
    game.set_unknown(0, 0).unwrap();
    game.set_unknown(1, 0).unwrap();
    game.set_unknown(2, 0).unwrap();
    assert_eq!(4, game.remaining());
}

#[test]
fn set_unknown_covers_revealed_cells() {
    let mut game = board_with(&[0, 24]);
    let before = game.state();
    game.set_unknown(2, 2).unwrap();
    assert_eq!(before, game.state());
    assert_eq!(Ok(CellState::Unknown(false)), game.cell_state(2, 2));
    game.uncover(1, 1).unwrap();
    assert_eq!(Ok(CellState::Counted(1)), game.cell_state(1, 1));
    game.set_unknown(1, 1).unwrap();
    assert_eq!(Ok(CellState::Unknown(false)), game.cell_state(1, 1));
    game.uncover(0, 0).unwrap();
    assert_eq!(Ok(CellState::Known(true)), game.cell_state(0, 0));
    game.set_unknown(0, 0).unwrap();
    assert_eq!(Ok(CellState::Unknown(true)), game.cell_state(0, 0));
    assert_eq!(3, game.remaining());
}

#[test]
fn marks_leave_revealed_cells_alone() {
    let mut game = board_with(&[0]);
    game.uncover(1, 1).unwrap();
    game.flag(1, 1).unwrap();
    game.question(1, 1).unwrap();
    game.toggle_mark(1, 1).unwrap();
    assert_eq!(Ok(CellState::Counted(1)), game.cell_state(1, 1));
    assert_eq!(3, game.remaining());
}

#[test]
fn show_mined_reveals_unmarked_mines_only() {
    let mut game = board_with(&[0, 1, 2]);
    game.flag(1, 0).unwrap();
    game.question(2, 0).unwrap();
    game.show_mined();
    assert_eq!(Ok(CellState::Known(true)), game.cell_state(0, 0));
    assert_eq!(Ok(CellState::Flagged(true)), game.cell_state(1, 0));
    assert_eq!(Ok(CellState::Questioned(true)), game.cell_state(2, 0));
    assert_eq!(Ok(CellState::Unknown(false)), game.cell_state(3, 3));
    assert_eq!(GameState::Playing, game.state());
}

#[test]
fn uncover_a_count_does_not_spread() {
    let mut game = board_with(&[0]);
    assert_eq!(Ok(GameState::Playing), game.uncover(1, 1));
    let mut expected = vec![CellState::Unknown(false); 25];
    expected[0] = CellState::Unknown(true);
    expected[6] = CellState::Counted(1);
    assert_eq!(expected, cells_of(&game));
    assert_eq!(Ok(GameState::Playing), game.uncover(1, 1));
    assert_eq!(expected, cells_of(&game));
}

#[test]
fn uncover_floods_the_whole_region() {
    //   * 2 0 1 *
    //   * 2 0 1 1
    //   1 1 1 1 1
    //   0 0 1 * 1
    //   0 0 1 1 1
    let mut game = board_with(&[0, 4, 5, 18]);
    assert_eq!(Ok(GameState::Playing), game.uncover(2, 0));
    let u = CellState::Unknown(false);
    let m = CellState::Unknown(true);
    let k = CellState::Known(false);
    let c1 = CellState::Counted(1);
    let c2 = CellState::Counted(2);
    let expected = vec![
        m, c2, k, c1, m, //
        m, c2, k, c1, u, //
        u, c1, c1, c1, u, //
        u, u, u, m, u, //
        u, u, u, u, u,
    ];
    assert_eq!(expected, cells_of(&game));
    assert_eq!(Ok(GameState::Lost), game.uncover(3, 3));
    assert_eq!(Ok(CellState::Known(true)), game.cell_at(18));
}

#[test]
fn uncover_floods_an_empty_board() {
    let mut game = board_with(&[]);
    game.uncover(4, 4).unwrap();
    assert!(cells_of(&game).iter().all(|c| *c == CellState::Known(false)));
}

#[test]
fn flood_stops_at_marks_and_starts_under_them() {
    let mut game = board_with(&[]);
    for y in 0..5 {
        game.flag(2, y).unwrap();
    }
    game.question(4, 4).unwrap();
    assert_eq!(0, game.remaining());
    game.uncover(2, 0).unwrap();
    let cells = cells_of(&game);
    for y in 0..5usize {
        for x in 0..5usize {
            let cell = cells[y * 5 + x];
            if x == 2 && y == 0 {
                assert_eq!(CellState::Known(false), cell);
            } else if x == 2 {
                assert_eq!(CellState::Flagged(false), cell);
            } else if x == 4 && y == 4 {
                assert_eq!(CellState::Questioned(false), cell);
            } else {
                assert_eq!(CellState::Known(false), cell);
            }
        }
    }
    assert_eq!(0, game.remaining());
}

#[test]
fn uncover_a_marked_mine_loses() {
    let mut game = board_with(&[3, 8]);
    game.flag(3, 0).unwrap();
    assert_eq!(Ok(GameState::Lost), game.uncover(3, 0));
    assert_eq!(Ok(CellState::Known(true)), game.cell_state(3, 0));
    assert_eq!(GameState::Lost, game.state());
    let mut game = board_with(&[3, 8]);
    game.question(3, 1).unwrap();
    assert_eq!(Ok(GameState::Lost), game.uncover(3, 1));
    assert_eq!(Ok(CellState::Known(true)), game.cell_state(3, 1));
}

#[test]
fn a_lost_game_is_frozen() {
    let mut game = board_with(&[0, 12]);
    assert_eq!(Ok(GameState::Lost), game.uncover(0, 0));
    let before = cells_of(&game);
    for (x, y) in [(4i16, 4i16), (2, 2), (0, 0), (1, 1), (-1, 7), (50, 50)] {
        assert_eq!(Ok(GameState::Lost), game.uncover(x, y));
        assert_eq!(before, cells_of(&game));
        assert_eq!(GameState::Lost, game.state());
    }
    assert_eq!(3, game.remaining());
}

#[test]
fn toggle_mark_cycles() {
    let mut game = board_with(&[6]);
    game.toggle_mark(1, 1).unwrap();
    assert_eq!(Ok(CellState::Flagged(true)), game.cell_state(1, 1));
    assert_eq!(2, game.remaining());
    game.toggle_mark(1, 1).unwrap();
    assert_eq!(Ok(CellState::Questioned(true)), game.cell_state(1, 1));
    assert_eq!(3, game.remaining());
    game.toggle_mark(1, 1).unwrap();
    assert_eq!(Ok(CellState::Unknown(true)), game.cell_state(1, 1));
    assert_eq!(3, game.remaining());
}

#[test]
fn press_shows_the_mines_and_then_starts_over() {
    let mut game = board_with(&[0, 24]);
    assert_eq!(Ok(GameState::Playing), game.press(2, 2));
    assert_eq!(Ok(CellState::Known(false)), game.cell_state(2, 2));
    assert_eq!(Ok(GameState::Lost), game.press(0, 0));
    assert_eq!(Ok(CellState::Known(true)), game.cell_state(0, 0));
    assert_eq!(Ok(CellState::Known(true)), game.cell_state(4, 4));
    assert_eq!(Ok(GameState::Initial), game.press(-9, 99));
    assert_eq!(3, count_mines(&game));
    assert_eq!(3, game.remaining());
    let mut rng = StdRng::seed_from_u64(1);
    let mut game = board_with(&[0]);
    assert_eq!(Ok(GameState::Lost), game.press_with(0, 0, &mut rng));
    assert_eq!(Ok(GameState::Initial), game.press_with(0, 0, &mut rng));
    assert_eq!(3, count_mines(&game));
}

#[test]
fn render_draws_every_kind_of_cell() {
    let mut game = Game::new(3, 2).unwrap();
    game.clear();
    game.set_mine(0, true).unwrap();
    game.set_mine(3, true).unwrap();
    game.uncover(1, 0).unwrap();
    game.flag(2, 0).unwrap();
    game.uncover(0, 1).unwrap();
    game.question(1, 1).unwrap();
    assert_eq!("\u{25A0} 2 \u{1F3F3} \n* ? \u{25A0} \n", game.render());
    let mut game = Game::new(2, 2).unwrap();
    game.clear();
    game.uncover(0, 0).unwrap();
    assert_eq!("\u{25A1} \u{25A1} \n\u{25A1} \u{25A1} \n", game.render());
}

#[test]
fn get_coords_reads_pairs() {
    assert_eq!(Some((3, 4)), get_coords("[3,4]"));
    assert_eq!(Some((10, -2)), get_coords("(10,-2)"));
    assert_eq!(Some((1, 2)), get_coords("[+1,2,9]"));
    assert_eq!(Some((1, 2)), get_coords("[0001,02]"));
    assert_eq!(Some((-32768, 32767)), get_coords("[-32768,32767]"));
    assert_eq!(Some((0, 0)), get_coords("x0,0,\u{e9}y"));
}

#[test]
fn get_coords_refuses_the_rest() {
    for text in [
        "", "[", "[]", "[1]", "[1,]", "[,1]", "[a,1]", "[1,b]", "[1, 2]", "[32768,0]",
        "[0,-32769]", "[+,1]", "[-,1]", "[1,2", "\u{e9}1,2]", "[1,2\u{e9}", "[1;2]",
        "[99999999999999999999,1]", "[1,--2]",
    ] {
        assert_eq!(None, get_coords(text), "{:?}", text);
    }
}
