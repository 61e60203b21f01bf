use battleship::board::{Board, Cell, ShotError, ShotResult, COLS, ROWS};
use battleship::game::{alternate_turn, Game, GameError, Phase};
use battleship::opponent::opponent_target;
use battleship::ship::{Direction, PlacementError, Ship};

fn ship(cord: [usize; 2], dir: Direction, len: usize, id: u32) -> Ship {
    Ship::new(cord, dir, len, id).expect("ship fits")
}

fn targeted(board: &Board) -> usize {
    board
        .render(true)
        .iter()
        .filter(|c| matches!(c, Cell::Hit | Cell::Miss))
        .count()
}

#[test]
fn ship_down_covers_four_cells() {
    let s = ship([2, 2], Direction::Down, 4, 2);
    assert_eq!(s.len(), 4);
    let cells: Vec<[usize; 2]> = (0..4).map(|i| s.cell(i)).collect();
    assert_eq!(cells, vec![[2, 2], [3, 2], [4, 2], [5, 2]]);
    assert_eq!(s.id(), 2);
}

#[test]
fn ship_up_and_left_list_cells_in_order() {
    let up = ship([4, 1], Direction::Up, 3, 1);
    let cells: Vec<[usize; 2]> = (0..3).map(|i| up.cell(i)).collect();
    assert_eq!(cells, vec![[2, 1], [3, 1], [4, 1]]);
    let left = ship([0, 5], Direction::Left, 2, 1);
    let cells: Vec<[usize; 2]> = (0..2).map(|i| left.cell(i)).collect();
    assert_eq!(cells, vec![[0, 4], [0, 5]]);
    let right = ship([3, 3], Direction::Right, 5, 3);
    let cells: Vec<[usize; 2]> = (0..5).map(|i| right.cell(i)).collect();
    assert_eq!(cells, vec![[3, 3], [3, 4], [3, 5], [3, 6], [3, 7]]);
}

#[test]
fn ship_up_past_zero_is_out_of_bounds() {
    assert_eq!(Ship::new([1, 0], Direction::Up, 3, 1).err(), Some(PlacementError::OutOfBounds));
    assert_eq!(Ship::new([0, 1], Direction::Left, 3, 1).err(), Some(PlacementError::OutOfBounds));
    assert!(Ship::new([2, 0], Direction::Up, 3, 1).is_ok());
}

#[test]
fn ship_past_word_size_is_out_of_bounds() {
    assert_eq!(Ship::new([usize::MAX, 0], Direction::Down, 2, 1).err(), Some(PlacementError::OutOfBounds));
    assert_eq!(Ship::new([0, usize::MAX], Direction::Right, 2, 1).err(), Some(PlacementError::OutOfBounds));
    assert!(Ship::new([usize::MAX, 0], Direction::Down, 1, 1).is_ok());
}

#[test]
fn new_ship_has_hit_points_equal_to_length() {
    for len in 0..6 {
        let s = ship([0, 0], Direction::Right, len, 1);
        assert_eq!(s.hit_points() as usize, s.len());
        assert_eq!(s.len(), len);
    }
    let mut board = Board::new();
    board.place_ship(ship([1, 1], Direction::Down, 3, 7)).unwrap();
    assert_eq!(board.ship_count(), 1);
    assert_eq!(board.ship(0).hit_points(), 3);
    assert_eq!(board.ship(0).len(), 3);
}

#[test]
fn apply_hit_stops_at_zero() {
    let mut s = ship([0, 0], Direction::Right, 1, 1);
    assert!(!s.is_sunk());
    s.apply_hit();
    assert!(s.is_sunk());
    s.apply_hit();
    assert_eq!(s.hit_points(), 0);
}

#[test]
fn check_collision_finds_covered_cells() {
    let s = ship([2, 2], Direction::Down, 4, 2);
    assert!(s.check_collision(&[4, 2]));
    assert!(!s.check_collision(&[4, 3]));
    assert!(!s.check_collision(&[6, 2]));
}

#[test]
fn new_board_is_empty() {
    let board = Board::new();
    let grid = board.render(true);
    assert_eq!(grid.len(), ROWS * COLS);
    assert!(grid.iter().all(|c| *c == Cell::Empty));
    assert_eq!(board.ship_count(), 0);
    assert_eq!(board.cell_at([ROWS, 0]), None);
}

#[test]
fn placing_marks_cells_with_id() {
    let mut board = Board::new();
    assert_eq!(board.place_ship(ship([2, 2], Direction::Down, 4, 2)), Ok(()));
    for r in 2..6 {
        assert_eq!(board.cell_at([r, 2]), Some(Cell::Ship(2)));
    }
    assert_eq!(board.cell_at([1, 2]), Some(Cell::Empty));
    assert_eq!(board.cell_at([2, 3]), Some(Cell::Empty));
}

#[test]
fn placing_off_the_grid_is_out_of_bounds() {
    let mut board = Board::new();
    assert_eq!(board.place_ship(ship([3, 0], Direction::Down, 4, 1)), Err(PlacementError::OutOfBounds));
    assert_eq!(board.place_ship(ship([0, 7], Direction::Right, 3, 1)), Err(PlacementError::OutOfBounds));
    assert_eq!(board.ship_count(), 0);
    assert!(board.render(true).iter().all(|c| *c == Cell::Empty));
}

#[test]
fn overlapping_placement_collides_and_changes_nothing() {
    let mut board = Board::new();
    board.place_ship(ship([2, 2], Direction::Down, 4, 2)).unwrap();
    let before = board.render(true);
    assert_eq!(board.place_ship(ship([3, 0], Direction::Right, 4, 3)), Err(PlacementError::Collision));
    assert_eq!(board.render(true), before);
    assert_eq!(board.ship_count(), 1);
    assert_eq!(board.place_ship(ship([3, 3], Direction::Right, 4, 3)), Ok(()));
}

#[test]
fn sink_vertical_ship_in_any_order() {
    let mut board = Board::new();
    board.place_ship(ship([2, 2], Direction::Down, 4, 2)).unwrap();
    let order = [[4, 2], [2, 2], [5, 2], [3, 2]];
    for (n, cord) in order.iter().enumerate() {
        assert!(!board.check_win());
        let r = board.shoot(*cord).unwrap();
        let last = n == order.len() - 1;
        assert_eq!(r, ShotResult::Hit { ship_id: 2, sunk: last });
        assert_eq!(board.cell_at(*cord), Some(Cell::Hit));
    }
    assert!(board.check_win());
    assert_eq!(board.ship(0).hit_points(), 0);
}

#[test]
fn shot_on_empty_board_misses_then_is_refused() {
    let mut board = Board::new();
    assert_eq!(board.shoot([0, 0]), Ok(ShotResult::Miss));
    assert_eq!(board.cell_at([0, 0]), Some(Cell::Miss));
    assert_eq!(board.shoot([0, 0]), Err(ShotError::AlreadyTargeted));
    assert_eq!(board.cell_at([0, 0]), Some(Cell::Miss));
}

#[test]
fn repeated_hit_is_refused_and_keeps_state() {
    let mut board = Board::new();
    board.place_ship(ship([0, 0], Direction::Right, 3, 1)).unwrap();
    assert_eq!(board.shoot([0, 1]), Ok(ShotResult::Hit { ship_id: 1, sunk: false }));
    let grid = board.render(true);
    assert_eq!(board.shoot([0, 1]), Err(ShotError::AlreadyTargeted));
    assert_eq!(board.render(true), grid);
    assert_eq!(board.ship(0).hit_points(), 2);
}

#[test]
fn shot_off_the_grid_is_out_of_bounds() {
    let mut board = Board::new();
    assert_eq!(board.shoot([ROWS, 0]), Err(ShotError::OutOfBounds));
    assert_eq!(board.shoot([0, COLS]), Err(ShotError::OutOfBounds));
    assert_eq!(targeted(&board), 0);
}

#[test]
fn each_applied_shot_marks_one_cell() {
    let mut board = Board::new();
    board.place_ship(ship([1, 1], Direction::Right, 3, 1)).unwrap();
    let targets = [[0, 0], [1, 1], [5, 8], [1, 2], [3, 4]];
    let start = board.render(true);
    for (n, cord) in targets.iter().enumerate() {
        board.shoot(*cord).unwrap();
        assert_eq!(targeted(&board), n + 1);
    }
    let end = board.render(true);
    for r in 0..ROWS {
        for c in 0..COLS {
            let i = r * COLS + c;
            if !targets.contains(&[r, c]) {
                assert_eq!(end[i], start[i]);
            }
        }
    }
}

#[test]
fn all_sunk_tracks_hit_points() {
    let mut board = Board::new();
    assert!(board.check_win());
    board.place_ship(ship([0, 0], Direction::Right, 1, 1)).unwrap();
    board.place_ship(ship([2, 0], Direction::Right, 2, 2)).unwrap();
    assert!(!board.check_win());
    assert_eq!(board.shoot([0, 0]), Ok(ShotResult::Hit { ship_id: 1, sunk: true }));
    assert!(!board.check_win());
    board.shoot([2, 0]).unwrap();
    assert!(!board.check_win());
    board.shoot([2, 1]).unwrap();
    assert!(board.check_win());
}

#[test]
fn hidden_view_shows_only_shots() {
    let mut board = Board::new();
    board.place_ship(ship([0, 0], Direction::Right, 2, 4)).unwrap();
    board.shoot([0, 0]).unwrap();
    board.shoot([5, 5]).unwrap();
    let hidden = board.render(false);
    let shown = board.render(true);
    assert_eq!(hidden[0], Cell::Hit);
    assert_eq!(hidden[1], Cell::Empty);
    assert_eq!(shown[1], Cell::Ship(4));
    assert_eq!(hidden[5 * COLS + 5], Cell::Miss);
}

#[test]
fn turns_alternate() {
    assert_eq!(alternate_turn(0), 1);
    assert_eq!(alternate_turn(1), 0);
    assert_eq!(alternate_turn(255), 0);
}

#[test]
fn opponent_targets_stay_on_the_grid() {
    for _ in 0..500 {
        let t = opponent_target();
        assert!(t[0] < ROWS && t[1] < COLS);
    }
}

#[test]
fn game_setup_errors() {
    let mut game = Game::new();
    assert_eq!(game.phase(), Phase::Setup);
    assert_eq!(game.place_ship(2, ship([0, 0], Direction::Right, 2, 1)), Err(GameError::NoSuchPlayer));
    assert_eq!(game.fire([0, 0]), Err(GameError::WrongPhase));
    assert_eq!(game.start(), Err(GameError::NoShips));
    game.place_ship(0, ship([0, 0], Direction::Right, 2, 1)).unwrap();
    assert_eq!(game.start(), Err(GameError::NoShips));
    assert_eq!(
        game.place_ship(0, ship([0, 1], Direction::Down, 2, 2)),
        Err(GameError::Placement(PlacementError::Collision))
    );
    game.place_ship(1, ship([5, 8], Direction::Up, 1, 1)).unwrap();
    assert_eq!(game.start(), Ok(()));
    assert_eq!(game.phase(), Phase::InProgress);
    assert_eq!(game.start(), Err(GameError::WrongPhase));
    assert_eq!(game.place_ship(0, ship([4, 4], Direction::Right, 1, 3)), Err(GameError::WrongPhase));
}

#[test]
fn game_plays_to_a_winner() {
    let mut game = Game::new();
    game.place_ship(0, ship([0, 0], Direction::Right, 2, 1)).unwrap();
    game.place_ship(1, ship([2, 2], Direction::Down, 1, 1)).unwrap();
    game.start().unwrap();
    assert_eq!(game.current_player(), 0);
    assert_eq!(game.fire([0, 0]), Ok(ShotResult::Miss));
    assert_eq!(game.current_player(), 1);
    assert_eq!(game.fire([0, 0]), Ok(ShotResult::Hit { ship_id: 1, sunk: false }));
    assert_eq!(game.current_player(), 0);
    assert_eq!(game.fire([0, 0]), Err(GameError::Shot(ShotError::AlreadyTargeted)));
    assert_eq!(game.current_player(), 0);
    assert_eq!(game.fire([2, 2]), Ok(ShotResult::Hit { ship_id: 1, sunk: true }));
    assert_eq!(game.phase(), Phase::Finished);
    assert_eq!(game.winner(), Some(0));
    assert_eq!(game.fire([3, 3]), Err(GameError::WrongPhase));
    assert!(game.board(1).check_win());
    assert!(!game.board(0).check_win());
}
