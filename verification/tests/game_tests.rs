use tictactoe::board::Piece;
use tictactoe::game::{create_game, Game, GameState, MoveError, Player};

fn human(piece: Piece) -> Player {
    Player { name: String::from("Ada"), piece }
}

fn count_pieces(game: &Game, piece: Piece) -> usize {
    let mut n: usize = 0;
    for r in 0..3 {
        for c in 0..3 {
            if game.board.cell_at(r, c) == Some(piece) {
                n += 1;
            }
        }
    }
    n
}

#[test]
fn create_with_human_x_leaves_board_empty() {
    let game = create_game(human(Piece::X));
    assert_eq!(game.human_player.piece, Piece::X);
    assert_eq!(game.computer_player.piece, Piece::O);
    assert_eq!(game.computer_player.name, "Computer");
    assert_eq!(game.current_state(), GameState::Ongoing);
    assert_eq!(game.board.get_empty_positions().len(), 9);
}

#[test]
fn create_with_human_o_lets_computer_open() {
    let game = create_game(human(Piece::O));
    assert_eq!(game.computer_player.piece, Piece::X);
    assert_eq!(game.current_state(), GameState::Ongoing);
    assert_eq!(game.board.get_empty_positions().len(), 8);
    assert_eq!(count_pieces(&game, Piece::X), 1);
    assert_eq!(count_pieces(&game, Piece::O), 0);
}

#[test]
fn human_center_move_gets_one_computer_answer() {
    let mut game = create_game(human(Piece::X));
    let res = game.apply_human_move(1, 1);
    assert_eq!(res, Ok(()));
    assert_eq!(game.board.cell_at(1, 1), Some(Piece::X));
    assert_eq!(game.current_state(), GameState::Ongoing);
    assert_eq!(count_pieces(&game, Piece::X), 1);
    assert_eq!(count_pieces(&game, Piece::O), 1);
    assert_eq!(game.board.get_empty_positions().len(), 7);
}

#[test]
fn occupied_cell_is_refused_and_nothing_changes() {
    let mut game = create_game(human(Piece::X));
    assert_eq!(game.apply_human_move(1, 1), Ok(()));
    let empties_before = game.board.get_empty_positions();
    let state_before = game.current_state();
    let res = game.apply_human_move(1, 1);
    assert_eq!(res, Err(MoveError::IllegalMove));
    assert_eq!(game.board.get_empty_positions(), empties_before);
    assert_eq!(game.current_state(), state_before);
    assert_eq!(game.board.cell_at(1, 1), Some(Piece::X));
}

#[test]
fn out_of_range_move_is_refused_and_nothing_changes() {
    let mut game = create_game(human(Piece::X));
    let empties_before = game.board.get_empty_positions();
    let res = game.apply_human_move(5, 0);
    assert_eq!(res, Err(MoveError::IllegalMove));
    assert_eq!(game.board.get_empty_positions(), empties_before);
    assert_eq!(game.current_state(), GameState::Ongoing);
}

#[test]
fn completed_row_is_reported_won() {
    let mut game = create_game(human(Piece::X));
    game.board.set(0, 0, Piece::X);
    game.board.set(0, 1, Piece::X);
    game.board.set(0, 2, Piece::X);
    game.update_game_state();
    assert_eq!(game.board.get_winning_piece(), Some(Piece::X));
    assert_eq!(game.current_state(), GameState::Won(Piece::X));
}

#[test]
fn full_board_with_line_is_won_not_drawn() {
    // X X X
    // O O X
    // X O O
    let mut game = create_game(human(Piece::X));
    game.board.set(0, 0, Piece::X);
    game.board.set(0, 1, Piece::X);
    game.board.set(0, 2, Piece::X);
    game.board.set(1, 0, Piece::O);
    game.board.set(1, 1, Piece::O);
    game.board.set(1, 2, Piece::X);
    game.board.set(2, 0, Piece::X);
    game.board.set(2, 1, Piece::O);
    game.board.set(2, 2, Piece::O);
    game.update_game_state();
    assert_eq!(game.current_state(), GameState::Won(Piece::X));
}

#[test]
fn full_board_without_line_is_drawn() {
    // X X O
    // O O X
    // X O X
    let mut game = create_game(human(Piece::X));
    game.board.set(0, 0, Piece::X);
    game.board.set(0, 1, Piece::X);
    game.board.set(0, 2, Piece::O);
    game.board.set(1, 0, Piece::O);
    game.board.set(1, 1, Piece::O);
    game.board.set(1, 2, Piece::X);
    game.board.set(2, 0, Piece::X);
    game.board.set(2, 1, Piece::O);
    game.board.set(2, 2, Piece::X);
    game.update_game_state();
    assert_eq!(game.current_state(), GameState::Draw);
}

#[test]
fn no_move_is_accepted_after_the_game_is_won() {
    let mut game = create_game(human(Piece::X));
    game.board.set(0, 0, Piece::X);
    game.board.set(0, 1, Piece::X);
    game.board.set(0, 2, Piece::X);
    game.update_game_state();
    let res = game.apply_human_move(2, 2);
    assert_eq!(res, Err(MoveError::IllegalMove));
    assert_eq!(game.board.cell_at(2, 2), None);
    assert_eq!(game.current_state(), GameState::Won(Piece::X));
}

#[test]
fn computer_move_lands_on_an_empty_cell() {
    let mut game = create_game(human(Piece::X));
    game.board.set(0, 0, Piece::X);
    game.board.set(1, 1, Piece::O);
    let empties_before = game.board.get_empty_positions();
    let mover = game.computer_player.duplicate();
    assert_eq!(game.make_ai_move(&mover), Ok(()));
    let empties_after = game.board.get_empty_positions();
    assert_eq!(empties_after.len(), empties_before.len() - 1);
    let filled: Vec<(usize, usize)> = empties_before
        .iter()
        .filter(|p| !empties_after.contains(*p))
        .cloned()
        .collect();
    assert_eq!(filled.len(), 1);
    let (r, c) = filled[0];
    assert_eq!(game.board.cell_at(r, c), Some(Piece::O));
}

#[test]
fn computer_move_on_full_board_reports_no_legal_move() {
    let mut game = create_game(human(Piece::X));
    for r in 0..3 {
        for c in 0..3 {
            game.board.set(r, c, if (r + c) % 2 == 0 { Piece::X } else { Piece::O });
        }
    }
    let mover = game.computer_player.duplicate();
    assert_eq!(game.make_ai_move(&mover), Err(MoveError::NoLegalMove));
}

#[test]
fn fresh_games_start_ongoing_with_given_players() {
    let h = Player { name: String::from("Grace"), piece: Piece::O };
    let c = Player { name: String::from("Computer"), piece: Piece::X };
    let game = Game::new(h, c);
    assert_eq!(game.human_player.name, "Grace");
    assert_eq!(game.human_player.piece, Piece::O);
    assert_eq!(game.computer_player.piece, Piece::X);
    assert_eq!(game.current_state(), GameState::Ongoing);
    assert_eq!(game.board.get_empty_positions().len(), 9);
}
