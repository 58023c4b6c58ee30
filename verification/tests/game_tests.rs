use snakes_ladders::cell::{Cell, CellType, PowerupType};
use snakes_ladders::error::GameError;
use snakes_ladders::game::Game;
use snakes_ladders::player::Player;

#[test]
fn board_has_width_times_height_fresh_cells() {
    let mut g = Game::empty();
    assert_eq!(g.board(4, 3), Ok(()));
    assert_eq!(g.board.len(), 12);
    assert_eq!(g.width, 4);
    for c in g.board.iter() {
        assert_eq!(c.occupant, None);
        assert_eq!(c.cell_type, CellType::NormalCell);
        assert_eq!(c.offset, 0);
        assert_eq!(c.powerup, PowerupType::Nothing);
    }
}

#[test]
fn board_zero_dimension_is_refused() {
    let mut g = Game::empty();
    assert_eq!(g.board(0, 3), Err(GameError::ZeroDimension));
    assert_eq!(g.board(3, 0), Err(GameError::ZeroDimension));
    assert_eq!(g.board.len(), 0);
}

#[test]
fn players_cascade_from_cell_one() {
    let mut g = Game::empty();
    g.board(3, 2).unwrap();
    assert_eq!(g.players(3), Ok(()));
    // later players bump earlier ones forward: C sits on 1, B on 2, A on 3
    assert_eq!(g.players[0].get_position(), 3); // A
    assert_eq!(g.players[1].get_position(), 2); // B
    assert_eq!(g.players[2].get_position(), 1); // C
    assert_eq!(g.board[0].occupant, Some(2));
    assert_eq!(g.board[1].occupant, Some(1));
    assert_eq!(g.board[2].occupant, Some(0));
    assert_eq!(g.players[0].get_name(), b'A');
    assert_eq!(g.players[1].get_name(), b'B');
    assert_eq!(g.players[2].get_name(), b'C');
}

#[test]
fn players_occupy_distinct_cells() {
    let mut g = Game::empty();
    g.board(5, 5).unwrap();
    g.players(5).unwrap();
    let mut cells: Vec<usize> = (0..5).map(|i| g.players[i].get_position()).collect();
    cells.sort();
    cells.dedup();
    assert_eq!(cells.len(), 5);
    for i in 0..5 {
        let pos = g.players[i].get_position();
        assert_eq!(g.board[pos - 1].occupant, Some(i));
    }
}

#[test]
fn too_many_players_is_refused() {
    let mut g = Game::empty();
    g.board(10, 10).unwrap();
    assert_eq!(g.players(27), Err(GameError::TooManyPlayers));
    assert_eq!(g.players.len(), 0);
    assert_eq!(g.players(26), Ok(()));
    assert_eq!(g.players.len(), 26);
}

#[test]
fn players_without_board_is_refused() {
    let mut g = Game::empty();
    assert_eq!(g.players(2), Err(GameError::OutOfRange));
}

#[test]
fn snake_with_antivenom_stays_and_consumes() {
    // snake from 10 to 4; the player holds antivenom when landing on 10
    let mut g = Game::empty();
    g.board(5, 2).unwrap();
    g.players(1).unwrap();
    g.abnormal_cell(10, 4).unwrap();
    assert_eq!(g.board[9].cell_type, CellType::SnakeCell);
    assert_eq!(g.board[9].offset, -6);
    g.powerup_cells(PowerupType::Antivenom, &vec![2]).unwrap();
    assert!(g.move_to(0, 2));
    assert!(g.players[0].antivenom);
    assert!(g.move_to(0, 10));
    assert_eq!(g.players[0].get_position(), 10);
    assert!(!g.players[0].antivenom);
    assert_eq!(g.board[9].occupant, Some(0));
}

#[test]
fn snake_without_antivenom_descends() {
    let mut g = Game::empty();
    g.board(5, 2).unwrap();
    g.players(1).unwrap();
    g.abnormal_cell(10, 4).unwrap();
    assert!(g.move_to(0, 10));
    assert_eq!(g.players[0].get_position(), 4);
    assert_eq!(g.board[3].occupant, Some(0));
    assert_eq!(g.board[9].occupant, None);
}

#[test]
fn ladder_with_escalator_doubles_and_consumes() {
    // ladder from 3 to 8 (offset 5); escalator doubles the climb to 13
    let mut g = Game::empty();
    g.board(4, 4).unwrap();
    g.players(1).unwrap();
    g.abnormal_cell(3, 8).unwrap();
    assert_eq!(g.board[2].cell_type, CellType::LadderCell);
    assert_eq!(g.board[2].offset, 5);
    g.powerup_cells(PowerupType::Escalator, &vec![2]).unwrap();
    assert!(g.move_to(0, 2));
    assert!(g.players[0].escalator);
    assert!(g.move_to(0, 3));
    assert_eq!(g.players[0].get_position(), 13);
    assert!(!g.players[0].escalator);
}

#[test]
fn ladder_escalator_clamps_at_board_size() {
    // ladder from 3 to 8 on a 10-cell board: 3 + 5 + 5 clamps to 10
    let mut g = Game::empty();
    g.board(5, 2).unwrap();
    g.players(1).unwrap();
    g.abnormal_cell(3, 8).unwrap();
    g.powerup_cells(PowerupType::Escalator, &vec![2]).unwrap();
    assert!(g.move_to(0, 2));
    assert!(g.move_to(0, 3));
    assert_eq!(g.players[0].get_position(), 10);
}

#[test]
fn ladder_without_escalator_climbs_once() {
    let mut g = Game::empty();
    g.board(4, 4).unwrap();
    g.players(1).unwrap();
    g.abnormal_cell(3, 8).unwrap();
    assert!(g.move_to(0, 3));
    assert_eq!(g.players[0].get_position(), 8);
}

#[test]
fn landing_on_occupied_cell_bumps_the_resident() {
    let mut g = Game::empty();
    g.board(5, 2).unwrap();
    g.players(2).unwrap();
    // B on 1, A on 2; move B onto A's cell: A is bumped to 3
    assert!(g.move_to(1, 2));
    assert_eq!(g.players[1].get_position(), 2);
    assert_eq!(g.players[0].get_position(), 3);
    assert_eq!(g.board[1].occupant, Some(1));
    assert_eq!(g.board[2].occupant, Some(0));
    assert_eq!(g.board[0].occupant, None);
}

#[test]
fn dice_cycle_two_five() {
    let mut g = Game::empty();
    g.board(5, 5).unwrap();
    g.players(1).unwrap();
    g.dice(vec![2, 5]);
    let mut positions = Vec::new();
    for _ in 0..4 {
        g.simulator(0).unwrap();
        positions.push(g.players[0].get_position());
    }
    // displacements 2, 5, 2, 5 from cell 1
    assert_eq!(positions, vec![3, 8, 10, 15]);
}

#[test]
fn roll_cycles_through_the_sequence() {
    let mut g = Game::empty();
    g.dice(vec![4, 6, 1]);
    assert_eq!(g.roll(), Ok(4));
    assert_eq!(g.roll(), Ok(6));
    assert_eq!(g.roll(), Ok(1));
    assert_eq!(g.roll(), Ok(4));
}

#[test]
fn empty_dice_is_an_error() {
    let mut g = Game::empty();
    g.board(3, 3).unwrap();
    g.players(1).unwrap();
    assert_eq!(g.simulator(0), Err(GameError::EmptyDice));
    assert_eq!(g.roll(), Err(GameError::EmptyDice));
}

#[test]
fn move_clamps_at_the_last_cell() {
    let mut g = Game::empty();
    g.board(3, 2).unwrap();
    g.players(1).unwrap();
    g.dice(vec![100]);
    g.simulator(0).unwrap();
    assert_eq!(g.players[0].get_position(), 6);
}

#[test]
fn out_of_range_special_is_refused_without_corruption() {
    let mut g = Game::empty();
    g.board(3, 2).unwrap();
    let before = g.to_string();
    assert_eq!(g.abnormal_cell(7, 2), Err(GameError::OutOfRange));
    assert_eq!(g.abnormal_cell(2, 7), Err(GameError::OutOfRange));
    assert_eq!(g.abnormal_cell(0, 2), Err(GameError::OutOfRange));
    assert_eq!(g.to_string(), before);
}

#[test]
fn out_of_range_powerup_is_refused_without_corruption() {
    let mut g = Game::empty();
    g.board(3, 2).unwrap();
    let before = g.to_string();
    // one bad index refuses the whole list: cell 2 stays bare
    assert_eq!(
        g.powerup_cells(PowerupType::Doubleroll, &vec![2, 9]),
        Err(GameError::OutOfRange)
    );
    assert_eq!(g.to_string(), before);
    assert_eq!(g.board[1].powerup, PowerupType::Nothing);
}

#[test]
fn powerup_overwrites_previous_powerup() {
    let mut g = Game::empty();
    g.board(3, 2).unwrap();
    g.powerup_cells(PowerupType::Antivenom, &vec![2]).unwrap();
    g.powerup_cells(PowerupType::Escalator, &vec![2]).unwrap();
    assert_eq!(g.board[1].powerup, PowerupType::Escalator);
}

#[test]
fn powerup_pickup_is_idempotent() {
    let mut p = Player::new(b'A');
    p.add_powerup(PowerupType::Doubleroll);
    p.add_powerup(PowerupType::Doubleroll);
    assert!(p.doubleroll);
    assert!(p.consume_powerup(PowerupType::Doubleroll));
    assert!(!p.consume_powerup(PowerupType::Doubleroll));
}

#[test]
fn cell_constructors() {
    let c = Cell::new();
    assert_eq!(c.occupant, None);
    assert_eq!(c.offset, 0);
    let c2 = Cell::new_with(Some(3), CellType::LadderCell, 5, PowerupType::Escalator);
    assert_eq!(c2.occupant, Some(3));
    assert_eq!(c2.cell_type, CellType::LadderCell);
    assert_eq!(c2.offset, 5);
    assert_eq!(c2.powerup, PowerupType::Escalator);
}

#[test]
fn player_accessors() {
    let mut p = Player::new(b'B');
    assert_eq!(p.get_name(), b'B');
    assert_eq!(p.get_position(), 1);
    p.set_position(7);
    assert_eq!(p.get_position(), 7);
    assert!(!p.antivenom);
    assert!(!p.doubleroll);
    assert!(!p.escalator);
}

#[test]
fn board_resize_discards_players_and_cells() {
    let mut g = Game::empty();
    g.board(3, 2).unwrap();
    g.players(2).unwrap();
    g.abnormal_cell(5, 2).unwrap();
    g.board(2, 2).unwrap();
    assert_eq!(g.players.len(), 0);
    assert_eq!(g.board.len(), 4);
    for c in g.board.iter() {
        assert_eq!(c.occupant, None);
        assert_eq!(c.offset, 0);
    }
}

#[test]
fn bumped_player_rides_a_ladder() {
    // B lands on A; A is bumped onto cell 3, which is a ladder to 6
    let mut g = Game::empty();
    g.board(3, 2).unwrap();
    g.players(1).unwrap();
    g.abnormal_cell(3, 6).unwrap();
    assert!(g.move_to(0, 2)); // A stands on 2
    g.players.push(Player::new(b'B'));
    assert!(g.move_to(1, 2)); // B lands on A
    assert_eq!(g.players[1].get_position(), 2);
    assert_eq!(g.players[0].get_position(), 6);
    assert_eq!(g.board[5].occupant, Some(0));
}

#[test]
fn doubleroll_is_picked_up_and_kept() {
    let mut g = Game::empty();
    g.board(3, 2).unwrap();
    g.players(1).unwrap();
    g.powerup_cells(PowerupType::Doubleroll, &vec![4]).unwrap();
    assert!(g.move_to(0, 4));
    assert!(g.players[0].doubleroll);
}

#[test]
fn unaddressable_board_is_refused() {
    let mut g = Game::empty();
    assert_eq!(g.board(70000, 70000), Err(GameError::BoardTooLarge));
    assert_eq!(g.board.len(), 0);
}
