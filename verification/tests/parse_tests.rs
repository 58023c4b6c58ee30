use snakes_ladders::cell::{CellType, PowerupType};
use snakes_ladders::error::GameError;
use snakes_ladders::game::Game;
use snakes_ladders::parse::read_from;

#[test]
fn commands_build_a_game() {
    let mut g = Game::empty();
    g.do_command("board 5 2").unwrap();
    g.do_command("players 2").unwrap();
    g.do_command("dice 2 5").unwrap();
    g.do_command("snake 9 2").unwrap();
    g.do_command("ladder 3 8").unwrap();
    g.do_command("powerup antivenom 4 6").unwrap();
    assert_eq!(g.board.len(), 10);
    assert_eq!(g.players.len(), 2);
    assert_eq!(g.dice, vec![2, 5]);
    assert_eq!(g.board[8].cell_type, CellType::SnakeCell);
    assert_eq!(g.board[2].cell_type, CellType::LadderCell);
    assert_eq!(g.board[3].powerup, PowerupType::Antivenom);
    assert_eq!(g.board[5].powerup, PowerupType::Antivenom);
}

#[test]
fn unrecognized_commands_are_ignored() {
    let mut g = Game::empty();
    assert_eq!(g.do_command("frobnicate 1 2"), Ok(()));
    assert_eq!(g.do_command(""), Ok(()));
    assert_eq!(g.do_command("   "), Ok(()));
    assert_eq!(g.do_command("powerup wings 3"), Ok(()));
}

#[test]
fn malformed_arguments_are_errors() {
    let mut g = Game::empty();
    assert_eq!(g.do_command("board x 2"), Err(GameError::Malformed));
    assert_eq!(g.do_command("board 2"), Err(GameError::Malformed));
    assert_eq!(g.do_command("players"), Err(GameError::Malformed));
    assert_eq!(g.do_command("board 5 2"), Ok(()));
    assert_eq!(g.do_command("snake nine 2"), Err(GameError::Malformed));
    assert_eq!(g.do_command("dice 2 x"), Err(GameError::Malformed));
    assert_eq!(g.do_command("board 99999999999999999999 2"), Err(GameError::Malformed));
}

#[test]
fn out_of_range_indices_from_commands_are_errors() {
    let mut g = Game::empty();
    g.do_command("board 3 2").unwrap();
    assert_eq!(g.do_command("snake 9 2"), Err(GameError::OutOfRange));
    assert_eq!(g.do_command("powerup double 7"), Err(GameError::OutOfRange));
}

#[test]
fn read_from_builds_the_whole_game() {
    let input = "board 3 2\nplayers 2\ndice 1\n";
    let g = read_from(input).unwrap();
    assert_eq!(g.board.len(), 6);
    assert_eq!(g.players.len(), 2);
    let expected = "+---+---+---+\n\
                    |  6|  5|  4|\n\
                    |   |   |   |\n\
                    +---+---+---+\n\
                    |  1|  2|  3|\n\
                    |B  |A  |   |\n\
                    +---+---+---+\n";
    assert_eq!(g.to_string(), expected);
}

#[test]
fn read_from_round_trip_is_deterministic() {
    let input = "board 4 4\nplayers 3\nsnake 9 2\nladder 3 8\npowerup escalator 5\n";
    let once = read_from(input).unwrap().to_string();
    let twice = read_from(input).unwrap().to_string();
    assert_eq!(once, twice);
}

#[test]
fn read_from_reports_the_first_error() {
    assert_eq!(read_from("board 0 2\n").err(), Some(GameError::ZeroDimension));
    assert_eq!(read_from("board 3 2\nsnake 9 1\n").err(), Some(GameError::OutOfRange));
    assert_eq!(read_from("players 2\n").err(), Some(GameError::OutOfRange));
}

#[test]
fn read_from_handles_crlf_and_missing_final_newline() {
    let g = read_from("board 3 2\r\nplayers 1").unwrap();
    assert_eq!(g.board.len(), 6);
    assert_eq!(g.players.len(), 1);
}

#[test]
fn dice_command_values_are_cyclic() {
    let mut g = read_from("board 5 5\nplayers 1\ndice 2 5\n").unwrap();
    let mut positions = Vec::new();
    for _ in 0..4 {
        g.simulator(0).unwrap();
        positions.push(g.players[0].get_position());
    }
    assert_eq!(positions, vec![3, 8, 10, 15]);
}
