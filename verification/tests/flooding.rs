use minesweeper::cell::{Cell, Face, Item};
use minesweeper::flood::fill_area;
use minesweeper::game::Game;
use minesweeper::model::GameState;

fn picture(game: &Game) -> Vec<String> {
    let mut rows = Vec::new();
    for y in 0..game.height() {
        let mut row = String::new();
        for x in 0..game.width() {
            row.push(match game.face_at(x, y).unwrap() {
                Face::Covered => '#',
                Face::Pinned => 'P',
                Face::Bomb => '*',
                Face::Blank => '.',
                Face::Number(n) => (b'0' + n) as char,
            });
        }
        rows.push(row);
    }
    rows
}

#[test]
fn a_flood_stops_at_the_numbers() {
    // the bomb in the middle column splits nothing: the flood goes round
    let mut game = Game::with_bombs(5, 5, &[(2, 2)]).unwrap();
    game.discover(&0, &0).unwrap();
    assert_eq!(picture(&game), ["....." , ".111.", ".1#1.", ".111.", "....."]);
    assert_eq!(game.hidden_empty(), 0);
    assert_eq!(game.state(), GameState::Win);
}

#[test]
fn a_flood_does_not_cross_a_wall_of_numbers() {
    // a column of bombs cuts the field in two
    let bombs = [(3, 0), (3, 1), (3, 2), (3, 3)];
    let mut game = Game::with_bombs(7, 4, &bombs).unwrap();
    game.discover(&0, &0).unwrap();
    assert_eq!(picture(&game), ["..2####", "..3####", "..3####", "..2####"]);
    assert_eq!(game.hidden_empty(), 24 - 12);
    assert_eq!(game.state(), GameState::Playing);
    game.discover(&6, &3).unwrap();
    assert_eq!(picture(&game), ["..2#2..", "..3#3..", "..3#3..", "..2#2.."]);
    assert_eq!(game.hidden_empty(), 0);
    assert_eq!(game.state(), GameState::Win);
}

#[test]
fn blank_cells_that_touch_at_a_corner_are_one_region() {
    // . . 1 B      the blank cells at (1, 1) and (2, 2) touch at a
    // . . 1 1      corner only, and that is way enough for the flood
    // 1 1 . .
    // B 1 . .
    let mut game = Game::with_bombs(4, 4, &[(3, 0), (0, 3)]).unwrap();
    game.discover(&0, &0).unwrap();
    assert_eq!(picture(&game), ["..1#", "..11", "11..", "#1.."]);
    assert_eq!(game.hidden_empty(), 0);
    assert_eq!(game.state(), GameState::Win);
}

#[test]
fn a_flood_from_a_corner_stops_at_its_numbered_border() {
    // . 1 B
    // 1 2 1
    // B 1 .
    let mut game = Game::with_bombs(3, 3, &[(2, 0), (0, 2)]).unwrap();
    game.discover(&0, &0).unwrap();
    assert_eq!(picture(&game), [".1#", "12#", "###"]);
    assert_eq!(game.hidden_empty(), 7 - 4);
    assert_eq!(game.state(), GameState::Playing);
}

#[test]
fn a_flood_leaves_pinned_cells_alone_and_goes_round_them() {
    let mut game = Game::with_bombs(5, 3, &[(4, 2)]).unwrap();
    game.pin(1, 1).unwrap();
    game.pin(2, 0).unwrap();
    game.discover(&0, &0).unwrap();
    assert_eq!(picture(&game), ["..P..", ".P.11", "...1#"]);
    assert_eq!(game.hidden_empty(), 2);
    assert_eq!(game.state(), GameState::Playing);
}

#[test]
fn a_wall_of_pins_stops_a_flood() {
    let mut game = Game::with_bombs(5, 2, &[(4, 1)]).unwrap();
    game.pin(1, 0).unwrap();
    game.pin(1, 1).unwrap();
    game.discover(&0, &0).unwrap();
    assert_eq!(picture(&game), [".P###", ".P###"]);
    assert_eq!(game.hidden_empty(), 9 - 2);
}

#[test]
fn a_flood_never_uncovers_a_bomb() {
    let mut floods = 0;
    for _ in 0..100 {
        let mut game = Game::new(14, 14).unwrap();
        for y in 0..14 {
            for x in 0..14 {
                if game.state() != GameState::Playing {
                    continue;
                }
                let before = game.hidden_empty();
                game.discover(&x, &y).unwrap();
                if game.state() == GameState::Loss {
                    assert_eq!(game.face_at(x, y), Ok(Face::Bomb));
                    assert_eq!(game.hidden_empty(), before);
                } else {
                    if before - game.hidden_empty() > 1 {
                        floods += 1;
                    }
                    let shown = picture(&game);
                    assert!(shown.iter().all(|row| !row.contains('*')));
                }
            }
        }
    }
    assert!(floods > 0);
}

#[test]
fn a_flood_leaves_no_blank_cell_next_to_a_covered_one() {
    for _ in 0..50 {
        let mut game = Game::new(12, 12).unwrap();
        for y in 0..12 {
            for x in 0..12 {
                if game.state() != GameState::Playing {
                    continue;
                }
                game.discover(&x, &y).unwrap();
                if game.state() == GameState::Loss {
                    continue;
                }
                for by in 0..12usize {
                    for bx in 0..12usize {
                        if game.face_at(bx, by) != Ok(Face::Blank) {
                            continue;
                        }
                        for ny in by.saturating_sub(1)..=(by + 1).min(11) {
                            for nx in bx.saturating_sub(1)..=(bx + 1).min(11) {
                                assert_ne!(game.face_at(nx, ny), Ok(Face::Covered));
                            }
                        }
                    }
                }
            }
        }
    }
}

fn hidden(n: u8) -> Cell {
    Cell::Hidden(Item::Empty(n))
}

fn open(n: u8) -> Cell {
    Cell::Discovered(Item::Empty(n))
}

#[test]
fn fill_area_discovers_the_region_and_counts_it() {
    let bomb = Cell::Hidden(Item::Bomb);
    let mut field = vec![
        vec![hidden(0), hidden(0), hidden(1), bomb],
        vec![hidden(0), hidden(0), hidden(1), hidden(1)],
        vec![hidden(0), hidden(0), hidden(0), hidden(0)],
    ];
    let mut hidden_count = 11;
    fill_area(&mut field, 0, 0, &mut hidden_count);
    assert_eq!(
        field,
        vec![
            vec![open(0), open(0), open(1), bomb],
            vec![open(0), open(0), open(1), open(1)],
            vec![open(0), open(0), open(0), open(0)],
        ]
    );
    assert_eq!(hidden_count, 0);
}

#[test]
fn fill_area_from_a_numbered_cell_discovers_that_cell_alone() {
    let bomb = Cell::Hidden(Item::Bomb);
    let mut field = vec![vec![hidden(0), hidden(1), bomb], vec![hidden(0), hidden(1), hidden(1)]];
    let mut hidden_count = 5;
    fill_area(&mut field, 1, 2, &mut hidden_count);
    assert_eq!(
        field,
        vec![vec![hidden(0), hidden(1), bomb], vec![hidden(0), hidden(1), open(1)]]
    );
    assert_eq!(hidden_count, 4);
}

#[test]
fn fill_area_keeps_away_from_pins_and_from_what_is_discovered() {
    let pin = Cell::Pin(Item::Empty(0));
    let mut field = vec![vec![hidden(0), pin, hidden(0)], vec![hidden(0), open(0), hidden(0)]];
    let mut hidden_count = 5;
    fill_area(&mut field, 0, 0, &mut hidden_count);
    // the discovered cell at the bottom is no way through: only hidden
    // cells carry a flood on
    assert_eq!(field, vec![vec![open(0), pin, hidden(0)], vec![open(0), open(0), hidden(0)]]);
    assert_eq!(hidden_count, 3);
}

#[test]
fn fill_area_takes_the_cells_that_it_discovers_off_any_counter_large_enough() {
    let bomb = Cell::Hidden(Item::Bomb);
    let mut field = vec![
        vec![hidden(0), hidden(0), hidden(1), bomb],
        vec![hidden(0), hidden(0), hidden(1), hidden(1)],
    ];
    let mut hidden_count = 20;
    fill_area(&mut field, 1, 0, &mut hidden_count);
    assert_eq!(
        field,
        vec![vec![open(0), open(0), open(1), bomb], vec![open(0), open(0), open(1), hidden(1)]]
    );
    assert_eq!(hidden_count, 14);
}
