use minesweeper::{CellState, Game};

#[test]
pub fn minefield_test_game_new() {
    let game = Game::new(10, 10).unwrap();
    assert_eq!(12, game.remaining());
    let mut remaining = 0_u16;
    for i in 0..100 {
        if game.cell_at(i).unwrap() == CellState::Unknown(true) {
            remaining += 1;
        }
    }
    assert_eq!(12, remaining);
}

#[test]
pub fn minefield_test_neighbor_count() {
    let mut game = Game::new(10, 10).unwrap();
    // clear the mine field
    for i in 0..100 {
        game.set_mine(i, false).unwrap();
    }
    // set a specific mine
    game.set_mine(32, true).unwrap();
    let count = game.neighbor_count(3, 4).unwrap();
    assert_eq!(1, count);
    game.set_mine(54, true).unwrap();
    let count = game.neighbor_count(3, 4).unwrap();
    assert_eq!(2, count);
    game.set_mine(42, true).unwrap();
    let count = game.neighbor_count(3, 4).unwrap();
    assert_eq!(3, count);
    game.set_mine(44, true).unwrap();
    let count = game.neighbor_count(3, 4).unwrap();
    assert_eq!(4, count);
    game.set_mine(43, true).unwrap();
    let count = game.neighbor_count(3, 4).unwrap();
    assert_eq!(4, count);
}

#[test]
pub fn minefield_test_uncover_simple() {
    //   * 2 0 1 *
    //   * 2 0 1 1
    //   1 1 1 1 1
    //   0 0 1 * 1
    //   0 0 1 1 1
    let mut game = Game::new(5, 5).unwrap();
    game.clear();
    game.set_mine(0, true).unwrap();
    game.set_mine(4, true).unwrap();
    game.set_mine(5, true).unwrap();
    game.set_mine(18, true).unwrap();
    assert_eq!(0, game.neighbor_count(2, 0).unwrap());
    game.uncover(2, 0).unwrap();
    assert_eq!(CellState::Known(false), game.cell_at(7).unwrap());
    assert_eq!(CellState::Counted(2), game.cell_at(1).unwrap());
    assert_eq!(CellState::Counted(2), game.cell_at(6).unwrap());
    assert_eq!(CellState::Counted(1), game.cell_at(3).unwrap());
    assert_eq!(CellState::Counted(1), game.cell_at(8).unwrap());
    assert_eq!(CellState::Unknown(false), game.cell_at(10).unwrap());
    assert_eq!(CellState::Counted(1), game.cell_at(11).unwrap());
    assert_eq!(CellState::Counted(1), game.cell_at(12).unwrap());
    assert_eq!(CellState::Counted(1), game.cell_at(13).unwrap());
    assert_eq!(CellState::Unknown(false), game.cell_at(14).unwrap());
    game.uncover(3, 3).unwrap();
    assert_eq!(CellState::Known(true), game.cell_at(18).unwrap());
}
