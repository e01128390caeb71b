use minesweeper::cell::{Cell, Face, Item};
use minesweeper::game::{update, Game, Message};
use minesweeper::model::{GameError, GameState};

fn faces(game: &Game) -> Vec<Vec<Face>> {
    let mut rows = Vec::new();
    for y in 0..game.height() {
        let mut row = Vec::new();
        for x in 0..game.width() {
            row.push(game.face_at(x, y).unwrap());
        }
        rows.push(row);
    }
    rows
}

/// Everything that can be seen of a game from outside.
fn snapshot(game: &Game) -> (Vec<Vec<Face>>, GameState, usize, Vec<(usize, usize)>, usize, String) {
    (
        faces(game),
        game.state(),
        game.hidden_empty(),
        game.pins().clone(),
        game.bomb_count(),
        game.describe(),
    )
}

#[test]
fn single_cell_board_is_won_by_its_one_move() {
    let mut game = Game::new(1, 1).unwrap();
    assert_eq!(game.bomb_count(), 0);
    assert_eq!(game.hidden_empty(), 1);
    assert_eq!(game.state(), GameState::Playing);
    assert_eq!(game.discover(&0, &0), Ok(()));
    assert_eq!(game.state(), GameState::Win);
    assert_eq!(game.hidden_empty(), 0);
    assert_eq!(game.face_at(0, 0), Ok(Face::Blank));
}

#[test]
fn bomb_in_the_middle_shows_one_in_every_corner() {
    let mut game = Game::with_bombs(3, 3, &[(1, 1)]).unwrap();
    assert_eq!(game.hidden_empty(), 8);
    let mut left = 8;
    for (x, y) in [(0, 0), (2, 0), (0, 2), (2, 2)] {
        assert_eq!(game.discover(&x, &y), Ok(()));
        left -= 1;
        assert_eq!(game.face_at(x, y), Ok(Face::Number(1)));
        // nothing spreads from a numbered cell
        assert_eq!(game.hidden_empty(), left);
    }
    assert_eq!(game.face_at(1, 0), Ok(Face::Covered));
    assert_eq!(game.face_at(0, 1), Ok(Face::Covered));
    assert_eq!(game.face_at(2, 1), Ok(Face::Covered));
    assert_eq!(game.face_at(1, 2), Ok(Face::Covered));
    assert_eq!(game.face_at(1, 1), Ok(Face::Covered));
    assert_eq!(game.state(), GameState::Playing);
}

#[test]
fn a_pinned_cell_is_not_discovered() {
    let mut game = Game::with_bombs(3, 3, &[(1, 1)]).unwrap();
    assert_eq!(game.pin(2, 0), Ok(()));
    assert_eq!(game.face_at(2, 0), Ok(Face::Pinned));
    let before = snapshot(&game);
    assert_eq!(game.discover(&2, &0), Ok(()));
    assert_eq!(snapshot(&game), before);
    assert_eq!(game.face_at(2, 0), Ok(Face::Pinned));
    assert_eq!(game.state(), GameState::Playing);
    assert_eq!(game.hidden_empty(), 8);
}

#[test]
fn a_pinned_bomb_does_not_go_off() {
    let mut game = Game::with_bombs(3, 3, &[(1, 1)]).unwrap();
    game.pin(1, 1).unwrap();
    game.discover(&1, &1).unwrap();
    assert_eq!(game.state(), GameState::Playing);
    assert_eq!(game.face_at(1, 1), Ok(Face::Pinned));
}

#[test]
fn pinning_lists_the_cell_and_changes_no_count() {
    let mut game = Game::with_bombs(4, 4, &[(0, 0), (3, 3)]).unwrap();
    game.pin(3, 3).unwrap();
    game.pin(1, 2).unwrap();
    assert_eq!(game.pins(), &vec![(3, 3), (1, 2)]);
    assert_eq!(game.hidden_empty(), 14);
    assert_eq!(game.bomb_count(), 2);
    assert_eq!(game.state(), GameState::Playing);
    assert_eq!(game.face_at(3, 3), Ok(Face::Pinned));
    assert_eq!(game.face_at(1, 2), Ok(Face::Pinned));
}

#[test]
fn pinning_twice_is_pinning_once() {
    let mut game = Game::with_bombs(4, 4, &[(0, 0)]).unwrap();
    game.pin(2, 2).unwrap();
    let once = snapshot(&game);
    game.pin(2, 2).unwrap();
    assert_eq!(snapshot(&game), once);
    assert_eq!(game.pins().len(), 1);
}

#[test]
fn pinning_a_discovered_cell_does_nothing() {
    let mut game = Game::with_bombs(3, 3, &[(1, 1)]).unwrap();
    game.discover(&0, &0).unwrap();
    let before = snapshot(&game);
    game.pin(0, 0).unwrap();
    assert_eq!(snapshot(&game), before);
    assert_eq!(game.face_at(0, 0), Ok(Face::Number(1)));
    assert!(game.pins().is_empty());
}

#[test]
fn discovering_twice_is_discovering_once() {
    let mut game = Game::with_bombs(5, 5, &[(4, 4), (0, 3)]).unwrap();
    game.discover(&3, &3).unwrap();
    let once = snapshot(&game);
    game.discover(&3, &3).unwrap();
    assert_eq!(snapshot(&game), once);
    // the same for a cell that started a flood
    game.discover(&2, &0).unwrap();
    let flooded = snapshot(&game);
    game.discover(&2, &0).unwrap();
    assert_eq!(snapshot(&game), flooded);
    // and for one that the flood discovered
    game.discover(&1, &1).unwrap();
    assert_eq!(snapshot(&game), flooded);
}

#[test]
fn a_bomb_loses_the_game_and_uncovers_every_bomb() {
    let bombs = [(0, 0), (4, 1), (2, 3), (4, 4)];
    let mut game = Game::with_bombs(5, 5, &bombs).unwrap();
    game.pin(4, 4).unwrap();
    game.discover(&1, &0).unwrap();
    assert_eq!(game.state(), GameState::Playing);
    assert_eq!(game.hidden_empty(), 20);
    assert_eq!(game.discover(&2, &3), Ok(()));
    assert_eq!(game.state(), GameState::Loss);
    for (x, y) in bombs {
        assert_eq!(game.face_at(x, y), Ok(Face::Bomb));
    }
    assert_eq!(game.hidden_empty(), 20);
    assert_eq!(game.face_at(1, 0), Ok(Face::Number(1)));
    assert_eq!(game.face_at(0, 4), Ok(Face::Covered));
    assert_eq!(game.pins(), &vec![(4, 4)]);
}

#[test]
fn nothing_moves_once_the_game_is_lost() {
    let mut game = Game::with_bombs(4, 4, &[(0, 0), (3, 3)]).unwrap();
    game.discover(&0, &0).unwrap();
    assert_eq!(game.state(), GameState::Loss);
    let lost = snapshot(&game);
    assert_eq!(game.discover(&2, &1), Ok(()));
    assert_eq!(game.pin(1, 2), Ok(()));
    assert_eq!(game.discover(&3, &3), Ok(()));
    game.update_game_state();
    assert_eq!(snapshot(&game), lost);
}

#[test]
fn nothing_moves_once_the_game_is_won() {
    let mut game = Game::with_bombs(2, 2, &[(1, 1)]).unwrap();
    game.discover(&0, &0).unwrap();
    game.discover(&1, &0).unwrap();
    assert_eq!(game.state(), GameState::Playing);
    game.discover(&0, &1).unwrap();
    assert_eq!(game.state(), GameState::Win);
    assert_eq!(game.hidden_empty(), 0);
    let won = snapshot(&game);
    assert_eq!(game.discover(&1, &1), Ok(()));
    assert_eq!(game.pin(1, 1), Ok(()));
    game.update_game_state();
    assert_eq!(snapshot(&game), won);
    assert_eq!(game.face_at(1, 1), Ok(Face::Covered));
}

#[test]
fn discovering_every_cell_without_a_bomb_wins() {
    let bombs = [(1, 0), (5, 2), (0, 4), (3, 3), (6, 5)];
    let mut game = Game::with_bombs(7, 6, &bombs).unwrap();
    assert_eq!(game.hidden_empty(), 37);
    for y in 0..6 {
        for x in 0..7 {
            if !bombs.contains(&(x, y)) {
                assert_ne!(game.state(), GameState::Loss);
                game.discover(&x, &y).unwrap();
                assert_ne!(game.face_at(x, y), Ok(Face::Covered));
            }
        }
    }
    assert_eq!(game.hidden_empty(), 0);
    assert_eq!(game.state(), GameState::Win);
    for (x, y) in bombs {
        assert_eq!(game.face_at(x, y), Ok(Face::Covered));
    }
}

#[test]
fn random_games_are_won_by_avoiding_the_bombs() {
    for _ in 0..20 {
        // find the bombs by losing a first game played on a copy of the moves
        let mut game = Game::new(8, 8).unwrap();
        let mut moves = Vec::new();
        'outer: for y in 0..8 {
            for x in 0..8 {
                if game.face_at(x, y) == Ok(Face::Covered) {
                    game.discover(&x, &y).unwrap();
                    moves.push((x, y));
                    if game.state() != GameState::Playing {
                        break 'outer;
                    }
                }
            }
        }
        if game.state() == GameState::Win {
            assert_eq!(game.hidden_empty(), 0);
        } else {
            assert_eq!(game.state(), GameState::Loss);
            assert!(game.hidden_empty() > 0);
            let (x, y) = *moves.last().unwrap();
            assert_eq!(game.face_at(x, y), Ok(Face::Bomb));
        }
    }
}

#[test]
fn a_pinned_clear_cell_keeps_the_game_from_being_won() {
    let mut game = Game::with_bombs(2, 2, &[(1, 1)]).unwrap();
    game.pin(0, 0).unwrap();
    for (x, y) in [(0, 0), (1, 0), (0, 1)] {
        game.discover(&x, &y).unwrap();
    }
    assert_eq!(game.hidden_empty(), 1);
    assert_eq!(game.state(), GameState::Playing);
}

#[test]
fn moves_off_the_field_are_errors_and_change_nothing() {
    let mut game = Game::with_bombs(4, 3, &[(1, 1)]).unwrap();
    game.discover(&3, &2).unwrap();
    let before = snapshot(&game);
    assert_eq!(game.discover(&4, &0), Err(GameError::OutOfBounds));
    assert_eq!(game.discover(&0, &3), Err(GameError::OutOfBounds));
    assert_eq!(game.discover(&usize::MAX, &usize::MAX), Err(GameError::OutOfBounds));
    assert_eq!(game.pin(4, 2), Err(GameError::OutOfBounds));
    assert_eq!(game.pin(3, 3), Err(GameError::OutOfBounds));
    assert_eq!(game.face_at(4, 0), Err(GameError::OutOfBounds));
    assert_eq!(game.face_at(0, 3), Err(GameError::OutOfBounds));
    assert_eq!(snapshot(&game), before);
    // the last column and the last row are on the field
    assert_eq!(game.pin(3, 0), Ok(()));
    assert_eq!(game.face_at(0, 2), Ok(Face::Covered));
}

#[test]
fn errors_come_before_the_end_of_the_game() {
    let mut game = Game::with_bombs(2, 2, &[(0, 0)]).unwrap();
    game.discover(&0, &0).unwrap();
    assert_eq!(game.state(), GameState::Loss);
    assert_eq!(game.discover(&2, &0), Err(GameError::OutOfBounds));
    assert_eq!(game.pin(0, 2), Err(GameError::OutOfBounds));
}

#[test]
fn update_game_state_wins_only_when_nothing_is_left() {
    let mut game = Game::with_bombs(3, 1, &[(0, 0)]).unwrap();
    game.update_game_state();
    assert_eq!(game.state(), GameState::Playing);
    game.discover(&1, &0).unwrap();
    game.update_game_state();
    assert_eq!(game.state(), GameState::Playing);
    assert_eq!(game.hidden_empty(), 1);
    game.discover(&2, &0).unwrap();
    assert_eq!(game.hidden_empty(), 0);
    assert_eq!(game.state(), GameState::Win);
}

#[test]
fn update_carries_out_a_message() {
    let mut game = Game::with_bombs(3, 3, &[(1, 1)]).unwrap();
    update(&mut game, Message::Pin { x: 2, y: 2 });
    assert_eq!(game.face_at(2, 2), Ok(Face::Pinned));
    update(&mut game, Message::Discover { x: 0, y: 1 });
    assert_eq!(game.face_at(0, 1), Ok(Face::Number(1)));
    let before = snapshot(&game);
    update(&mut game, Message::Discover { x: 3, y: 0 });
    update(&mut game, Message::Pin { x: 0, y: 9 });
    update(&mut game, Message::Discover { x: 2, y: 2 });
    assert_eq!(snapshot(&game), before);
    update(&mut game, Message::Discover { x: 1, y: 1 });
    assert_eq!(game.state(), GameState::Loss);
}

#[test]
fn cells_keep_their_content_when_discovered() {
    for item in [Item::Bomb, Item::Empty(0), Item::Empty(3), Item::Empty(8)] {
        for cell in [Cell::Hidden(item), Cell::Pin(item), Cell::Discovered(item)] {
            assert_eq!(cell.get_item(), item);
            assert_eq!(cell.turn_discovered(), Cell::Discovered(item));
        }
    }
}

#[test]
fn cells_show_their_content_only_when_discovered() {
    for item in [Item::Bomb, Item::Empty(0), Item::Empty(5)] {
        assert_eq!(Cell::Hidden(item).face(), Face::Covered);
        assert_eq!(Cell::Pin(item).face(), Face::Pinned);
    }
    assert_eq!(Cell::Discovered(Item::Bomb).face(), Face::Bomb);
    assert_eq!(Cell::Discovered(Item::Empty(0)).face(), Face::Blank);
    assert_eq!(Cell::Discovered(Item::Empty(1)).face(), Face::Number(1));
    assert_eq!(Cell::Discovered(Item::Empty(8)).face(), Face::Number(8));
}

#[test]
fn a_lost_game_stays_lost_when_its_state_is_brought_up_to_date() {
    let mut game = Game::with_bombs(2, 1, &[(0, 0)]).unwrap();
    game.discover(&0, &0).unwrap();
    assert_eq!(game.state(), GameState::Loss);
    for _ in 0..3 {
        game.update_game_state();
        assert_eq!(game.state(), GameState::Loss);
    }
    assert_eq!(game.hidden_empty(), 1);
}

#[test]
fn a_won_game_stays_won_when_its_state_is_brought_up_to_date() {
    let mut game = Game::with_bombs(2, 1, &[(0, 0)]).unwrap();
    game.discover(&1, &0).unwrap();
    assert_eq!(game.state(), GameState::Win);
    game.update_game_state();
    assert_eq!(game.state(), GameState::Win);
    assert_eq!(game.hidden_empty(), 0);
}
