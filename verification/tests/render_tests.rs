use snakes_ladders::cell::PowerupType;
use snakes_ladders::game::Game;
use snakes_ladders::render::get_grid;

#[test]
fn grid_rule_shape() {
    assert_eq!(get_grid(0), "+\n");
    assert_eq!(get_grid(1), "+---+\n");
    assert_eq!(get_grid(3), "+---+---+---+\n");
}

#[test]
fn empty_board_renders_serpentine() {
    let mut g = Game::empty();
    g.board(3, 2).unwrap();
    let expected = "+---+---+---+\n\
                    |  6|  5|  4|\n\
                    |   |   |   |\n\
                    +---+---+---+\n\
                    |  1|  2|  3|\n\
                    |   |   |   |\n\
                    +---+---+---+\n";
    assert_eq!(g.to_string(), expected);
}

#[test]
fn players_and_markers_render() {
    let mut g = Game::empty();
    g.board(3, 2).unwrap();
    g.players(2).unwrap();
    g.abnormal_cell(3, 5).unwrap();
    g.abnormal_cell(6, 4).unwrap();
    g.powerup_cells(PowerupType::Doubleroll, &vec![4]).unwrap();
    // B on 1, A on 2; ladder L on 3, snake S on 6, powerup d on 4
    let expected = "+---+---+---+\n\
                    |  6|  5|  4|\n\
                    |  S|   | d |\n\
                    +---+---+---+\n\
                    |  1|  2|  3|\n\
                    |B  |A  |  L|\n\
                    +---+---+---+\n";
    assert_eq!(g.to_string(), expected);
}

#[test]
fn rows_render_in_both_directions() {
    let mut g = Game::empty();
    g.board(3, 2).unwrap();
    assert_eq!(g.row_to_string_reg(3, 1), "|  1|  2|  3|\n|   |   |   |\n+---+---+---+\n");
    assert_eq!(g.row_to_string_rev(3, 2), "|  6|  5|  4|\n|   |   |   |\n+---+---+---+\n");
}

#[test]
fn three_digit_indices_align() {
    let mut g = Game::empty();
    g.board(2, 50).unwrap();
    let s = g.to_string();
    assert!(s.starts_with("+---+---+\n|100| 99|\n"));
}

#[test]
fn no_board_renders_bare_rule() {
    let g = Game::empty();
    assert_eq!(g.to_string(), "+\n");
}

#[test]
fn rendering_is_deterministic() {
    let mut g = Game::empty();
    g.board(4, 4).unwrap();
    g.players(3).unwrap();
    g.abnormal_cell(7, 2).unwrap();
    let once = g.to_string();
    let twice = g.to_string();
    assert_eq!(once, twice);
}

#[test]
fn antivenom_and_escalator_markers_render() {
    let mut g = Game::empty();
    g.board(3, 1).unwrap();
    g.powerup_cells(PowerupType::Antivenom, &vec![1]).unwrap();
    g.powerup_cells(PowerupType::Escalator, &vec![3]).unwrap();
    assert_eq!(g.to_string(), "+---+---+---+\n|  1|  2|  3|\n| a |   | e |\n+---+---+---+\n");
}
