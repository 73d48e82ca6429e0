use snake::board::GameBoard;
use snake::cell::BoardField;
use snake::direction::Direction;
use snake::model::Outcome;
use snake::position::Position;

fn pos(x: u8, y: u8) -> Position {
    Position { x, y }
}

fn count(board: &GameBoard, field: BoardField) -> usize {
    let size = board.size();
    let mut n = 0;
    for y in 0..size.y {
        for x in 0..size.x {
            if board.field_at(pos(x, y)) == field {
                n += 1;
            }
        }
    }
    n
}

/// The invariant of a game in play, checked cell by cell.
fn assert_in_play(board: &GameBoard) {
    let size = board.size();
    let snake = board.snake();
    assert!(!snake.is_empty());
    assert_eq!(snake.len(), board.snake_len());
    assert!(snake.len() <= size.x as usize * size.y as usize);
    for (i, p) in snake.iter().enumerate() {
        assert!(p.x < size.x && p.y < size.y);
        let expected = if i == 0 { BoardField::SnakeHead } else { BoardField::SnakeTail };
        assert_eq!(board.field_at(*p), expected);
        assert!(!snake[..i].contains(p));
    }
    assert_eq!(count(board, BoardField::SnakeHead), 1);
    assert_eq!(count(board, BoardField::SnakeTail), snake.len() - 1);
    assert!(count(board, BoardField::Fruit) <= 1);
}

/// A board of the given size with the snake at the top-left cell and the fruit at `fruit`.
fn board_with_fruit(size: Position, fruit: Position) -> GameBoard {
    let mut board = GameBoard::bare(size);
    assert!(board.place_fruit_at(Some(fruit)));
    board
}

/// A three by three board whose snake of four segments coils through the
/// top-left two by two cells, head at (0, 1), tail end at (0, 0).
fn coiled_board() -> GameBoard {
    let mut board = board_with_fruit(pos(3, 3), pos(1, 0));
    assert_eq!(board.update_with_pick(&Direction::Right, Some(pos(1, 1))), Outcome::Continue);
    assert_eq!(board.update_with_pick(&Direction::Down, Some(pos(0, 1))), Outcome::Continue);
    assert_eq!(board.update_with_pick(&Direction::Left, Some(pos(2, 2))), Outcome::Continue);
    assert_eq!(board.snake(), vec![pos(0, 1), pos(1, 1), pos(1, 0), pos(0, 0)]);
    board
}

/// A two by two board on which the snake holds three cells and the fruit the fourth.
fn nearly_full_board() -> GameBoard {
    let mut board = board_with_fruit(pos(2, 2), pos(1, 0));
    assert_eq!(board.update_with_pick(&Direction::Right, Some(pos(1, 1))), Outcome::Continue);
    assert_eq!(board.update_with_pick(&Direction::Down, Some(pos(0, 1))), Outcome::Continue);
    assert_eq!(board.snake(), vec![pos(1, 1), pos(1, 0), pos(0, 0)]);
    assert_eq!(count(&board, BoardField::Empty), 0);
    assert_eq!(board.field_at(pos(0, 1)), BoardField::Fruit);
    board
}

#[test]
fn bare_board_holds_only_the_head() {
    let board = GameBoard::bare(pos(4, 3));
    assert_eq!(board.size(), pos(4, 3));
    assert_eq!(board.snake(), vec![pos(0, 0)]);
    assert_eq!(board.snake_len(), 1);
    assert_eq!(board.field_at(pos(0, 0)), BoardField::SnakeHead);
    assert_eq!(count(&board, BoardField::Empty), 11);
    assert_eq!(count(&board, BoardField::Fruit), 0);
    assert_eq!(count(&board, BoardField::SnakeTail), 0);
    assert_in_play(&board);
}

#[test]
fn new_board_has_one_fruit_away_from_the_head() {
    for _ in 0..200 {
        let board = GameBoard::new(pos(3, 2));
        assert_eq!(board.size(), pos(3, 2));
        assert_eq!(board.snake(), vec![pos(0, 0)]);
        assert_eq!(board.field_at(pos(0, 0)), BoardField::SnakeHead);
        assert_eq!(count(&board, BoardField::Fruit), 1);
        assert_eq!(count(&board, BoardField::Empty), 4);
        assert_in_play(&board);
    }
}

#[test]
fn new_board_of_sixteen_by_sixteen() {
    let board = GameBoard::new(pos(16, 16));
    assert_eq!(count(&board, BoardField::SnakeHead), 1);
    assert_eq!(count(&board, BoardField::Fruit), 1);
    assert_eq!(count(&board, BoardField::Empty), 254);
    assert_in_play(&board);
}

#[test]
fn new_board_of_the_smallest_size() {
    let board = GameBoard::new(pos(2, 2));
    assert_eq!(count(&board, BoardField::Fruit), 1);
    assert_eq!(count(&board, BoardField::Empty), 2);
    assert_in_play(&board);
}

#[test]
fn new_board_puts_the_fruit_on_every_free_cell_in_turn() {
    let mut seen = [false; 4];
    for _ in 0..400 {
        let board = GameBoard::new(pos(2, 2));
        for y in 0..2u8 {
            for x in 0..2u8 {
                if board.field_at(pos(x, y)) == BoardField::Fruit {
                    seen[(y * 2 + x) as usize] = true;
                }
            }
        }
    }
    assert_eq!(seen, [false, true, true, true]);
}

#[test]
fn new_board_on_a_grid_of_more_than_256_cells() {
    let board = GameBoard::new(pos(40, 30));
    assert_eq!(count(&board, BoardField::Fruit), 1);
    assert_eq!(count(&board, BoardField::Empty), 40 * 30 - 2);
    assert_in_play(&board);
}

#[test]
fn empty_fields_come_row_by_row() {
    let board = board_with_fruit(pos(3, 2), pos(1, 1));
    assert_eq!(board.empty_fields(), vec![pos(1, 0), pos(2, 0), pos(0, 1), pos(2, 1)]);
}

#[test]
fn empty_fields_of_a_full_board_are_none() {
    let board = nearly_full_board();
    assert_eq!(board.empty_fields(), Vec::<Position>::new());
}

#[test]
fn place_fruit_at_marks_the_picked_cell_only() {
    let mut board = GameBoard::bare(pos(3, 3));
    assert!(board.place_fruit_at(Some(pos(2, 1))));
    assert_eq!(board.field_at(pos(2, 1)), BoardField::Fruit);
    assert_eq!(count(&board, BoardField::Fruit), 1);
    assert_eq!(count(&board, BoardField::Empty), 7);
    assert_eq!(board.field_at(pos(0, 0)), BoardField::SnakeHead);
    assert_eq!(board.snake(), vec![pos(0, 0)]);
}

#[test]
fn place_fruit_at_without_a_pick_changes_nothing() {
    let mut board = nearly_full_board();
    let before = board.render();
    assert!(!board.place_fruit_at(None));
    assert_eq!(board.render(), before);
    assert_eq!(board.snake(), vec![pos(1, 1), pos(1, 0), pos(0, 0)]);
}

#[test]
fn place_new_fruit_takes_one_empty_cell_each_time_until_none_is_left() {
    let mut board = GameBoard::bare(pos(2, 2));
    for placed in 1..=3usize {
        assert!(board.place_new_fruit());
        assert_eq!(count(&board, BoardField::Fruit), placed);
        assert_eq!(count(&board, BoardField::Empty), 3 - placed);
        assert_eq!(board.field_at(pos(0, 0)), BoardField::SnakeHead);
    }
    assert!(!board.place_new_fruit());
    assert_eq!(count(&board, BoardField::Fruit), 3);
    assert_eq!(board.snake(), vec![pos(0, 0)]);
}

#[test]
fn draw_pick_names_an_empty_cell() {
    let board = board_with_fruit(pos(3, 2), pos(1, 1));
    for _ in 0..100 {
        let pick = board.draw_pick().expect("the board has empty cells");
        assert_eq!(board.field_at(pick), BoardField::Empty);
    }
}

#[test]
fn draw_pick_on_a_full_board_is_none() {
    let board = nearly_full_board();
    assert_eq!(board.draw_pick(), None);
}

#[test]
fn draw_pick_reaches_every_empty_cell() {
    let board = board_with_fruit(pos(2, 2), pos(1, 0));
    let mut seen = Vec::new();
    for _ in 0..400 {
        let pick = board.draw_pick().expect("the board has empty cells");
        if !seen.contains(&pick) {
            seen.push(pick);
        }
    }
    seen.sort_by_key(|p| (p.y, p.x));
    assert_eq!(seen, vec![pos(0, 1), pos(1, 1)]);
}

#[test]
fn next_head_is_the_neighbour_on_the_torus() {
    let board = GameBoard::bare(pos(5, 4));
    assert_eq!(board.next_head(&Direction::Right), pos(1, 0));
    assert_eq!(board.next_head(&Direction::Down), pos(0, 1));
    assert_eq!(board.next_head(&Direction::Left), pos(4, 0));
    assert_eq!(board.next_head(&Direction::Up), pos(0, 3));
}

#[test]
fn plain_move_keeps_the_length_and_frees_the_tail_cell() {
    let mut board = board_with_fruit(pos(4, 4), pos(3, 3));
    assert_eq!(board.update_with_pick(&Direction::Right, None), Outcome::Continue);
    assert_eq!(board.snake(), vec![pos(1, 0)]);
    assert_eq!(board.field_at(pos(0, 0)), BoardField::Empty);
    assert_eq!(board.field_at(pos(1, 0)), BoardField::SnakeHead);
    assert_eq!(board.field_at(pos(3, 3)), BoardField::Fruit);
    assert_in_play(&board);
}

#[test]
fn plain_move_of_a_longer_snake_drops_its_tail_end() {
    let mut board = coiled_board();
    assert_eq!(board.update_with_pick(&Direction::Down, None), Outcome::Continue);
    assert_eq!(board.snake(), vec![pos(0, 2), pos(0, 1), pos(1, 1), pos(1, 0)]);
    assert_eq!(board.snake_len(), 4);
    assert_eq!(board.field_at(pos(0, 0)), BoardField::Empty);
    assert_eq!(board.field_at(pos(0, 2)), BoardField::SnakeHead);
    assert_eq!(board.field_at(pos(0, 1)), BoardField::SnakeTail);
    assert_in_play(&board);
}

#[test]
fn plain_move_wraps_round_the_edge() {
    let mut board = board_with_fruit(pos(4, 3), pos(2, 1));
    assert_eq!(board.update_with_pick(&Direction::Left, None), Outcome::Continue);
    assert_eq!(board.snake(), vec![pos(3, 0)]);
    assert_eq!(board.update_with_pick(&Direction::Up, None), Outcome::Continue);
    assert_eq!(board.snake(), vec![pos(3, 2)]);
    assert_eq!(board.update_with_pick(&Direction::Right, None), Outcome::Continue);
    assert_eq!(board.snake(), vec![pos(0, 2)]);
    assert_eq!(board.update_with_pick(&Direction::Down, None), Outcome::Continue);
    assert_eq!(board.snake(), vec![pos(0, 0)]);
    assert_in_play(&board);
}

#[test]
fn eating_grows_the_snake_by_one_and_frees_no_cell() {
    let mut board = board_with_fruit(pos(4, 4), pos(1, 0));
    assert_eq!(board.update_with_pick(&Direction::Right, Some(pos(2, 2))), Outcome::Continue);
    assert_eq!(board.snake(), vec![pos(1, 0), pos(0, 0)]);
    assert_eq!(board.snake_len(), 2);
    assert_eq!(board.field_at(pos(1, 0)), BoardField::SnakeHead);
    assert_eq!(board.field_at(pos(0, 0)), BoardField::SnakeTail);
    assert_eq!(board.field_at(pos(2, 2)), BoardField::Fruit);
    assert_eq!(count(&board, BoardField::Fruit), 1);
    assert_in_play(&board);
}

#[test]
fn reversing_a_snake_of_two_swaps_its_cells() {
    let mut board = board_with_fruit(pos(4, 4), pos(1, 0));
    assert_eq!(board.update_with_pick(&Direction::Right, Some(pos(3, 3))), Outcome::Continue);
    assert_eq!(board.update_with_pick(&Direction::Left, None), Outcome::Continue);
    assert_eq!(board.snake(), vec![pos(0, 0), pos(1, 0)]);
    assert_in_play(&board);
}

#[test]
fn entering_the_cell_of_the_tail_end_is_no_collision() {
    let mut board = coiled_board();
    assert_eq!(board.update_with_pick(&Direction::Up, None), Outcome::Continue);
    assert_eq!(board.snake(), vec![pos(0, 0), pos(0, 1), pos(1, 1), pos(1, 0)]);
    assert_in_play(&board);
}

#[test]
fn running_into_the_body_loses() {
    let mut board = coiled_board();
    let outcome = board.update_with_pick(&Direction::Right, None);
    assert_eq!(outcome, Outcome::Lost(3));
    assert_eq!(outcome.final_score(), Some(3));
    assert_eq!(board.snake_len(), 3);
    assert_eq!(board.snake(), vec![pos(0, 1), pos(1, 1), pos(1, 0)]);
    assert_eq!(count(&board, BoardField::SnakeHead), 0);
    assert_eq!(board.field_at(pos(0, 1)), BoardField::SnakeTail);
    assert_eq!(board.field_at(pos(0, 0)), BoardField::Empty);
    assert_eq!(board.field_at(pos(2, 2)), BoardField::Fruit);
}

#[test]
fn running_into_the_body_loses_through_update() {
    let mut board = coiled_board();
    assert_eq!(board.update(&Direction::Right), Some(3));
    assert_eq!(board.snake_len(), 3);
}

#[test]
fn eating_the_last_fruit_on_a_full_board_wins() {
    let mut board = nearly_full_board();
    let outcome = board.update_with_pick(&Direction::Left, None);
    assert_eq!(outcome, Outcome::Won(3));
    assert_eq!(outcome.final_score(), Some(3));
    assert_eq!(board.snake_len(), 3);
    assert_eq!(board.snake(), vec![pos(1, 1), pos(1, 0), pos(0, 0)]);
    assert_eq!(board.field_at(pos(1, 1)), BoardField::SnakeTail);
    assert_eq!(board.field_at(pos(0, 1)), BoardField::Fruit);
}

#[test]
fn eating_the_last_fruit_wins_through_update() {
    let mut board = nearly_full_board();
    assert_eq!(board.update(&Direction::Left), Some(3));
    assert_eq!(board.field_at(pos(0, 1)), BoardField::Fruit);
}

#[test]
fn update_places_the_next_fruit_on_an_empty_cell() {
    for _ in 0..100 {
        let mut board = board_with_fruit(pos(3, 3), pos(1, 0));
        assert_eq!(board.update(&Direction::Right), None);
        assert_eq!(board.snake(), vec![pos(1, 0), pos(0, 0)]);
        assert_eq!(count(&board, BoardField::Fruit), 1);
        assert_eq!(count(&board, BoardField::Empty), 6);
        assert_in_play(&board);
    }
}

#[test]
fn update_without_fruit_ahead_moves_the_snake() {
    let mut board = board_with_fruit(pos(3, 3), pos(2, 2));
    assert_eq!(board.update(&Direction::Down), None);
    assert_eq!(board.snake(), vec![pos(0, 1)]);
    assert_eq!(board.field_at(pos(0, 0)), BoardField::Empty);
    assert_eq!(board.field_at(pos(2, 2)), BoardField::Fruit);
    assert_in_play(&board);
}

#[test]
fn invariant_holds_tick_after_tick() {
    let directions = [Direction::Right, Direction::Down, Direction::Left, Direction::Up];
    let mut state: u32 = 12345;
    for _ in 0..20 {
        let mut board = GameBoard::new(pos(4, 3));
        for _ in 0..300 {
            state = state.wrapping_mul(1664525).wrapping_add(1013904223);
            let direction = directions[(state >> 16) as usize % 4];
            let before = board.snake_len();
            match board.update(&direction) {
                None => {
                    assert_in_play(&board);
                    assert!(board.snake_len() == before || board.snake_len() == before + 1);
                },
                Some(score) => {
                    assert_eq!(score as usize, board.snake_len());
                    assert!(score as usize == before || score as usize == before - 1);
                    break;
                },
            }
        }
    }
}

#[test]
fn snake_fills_the_grid_and_no_more() {
    let mut board = nearly_full_board();
    assert_eq!(board.snake_len(), 3);
    assert!(board.snake_len() <= 2 * 2);
    assert_eq!(board.update_with_pick(&Direction::Left, None), Outcome::Won(3));
    assert!(board.snake_len() <= 2 * 2);
}

#[test]
fn same_moves_and_picks_give_the_same_states() {
    let moves = [
        (Direction::Right, Some(pos(2, 2))),
        (Direction::Right, None),
        (Direction::Down, None),
        (Direction::Down, Some(pos(0, 1))),
        (Direction::Left, None),
        (Direction::Left, None),
        (Direction::Up, Some(pos(1, 1))),
        (Direction::Up, None),
    ];
    let mut first = board_with_fruit(pos(3, 3), pos(1, 0));
    let mut second = board_with_fruit(pos(3, 3), pos(1, 0));
    for (direction, pick) in moves.iter() {
        let a = first.update_with_pick(direction, *pick);
        let b = second.update_with_pick(direction, *pick);
        assert_eq!(a, b);
        assert_eq!(first.render(), second.render());
        assert_eq!(first.snake(), second.snake());
        if a != Outcome::Continue {
            break;
        }
    }
}

#[test]
fn outcome_scores() {
    assert_eq!(Outcome::Continue.final_score(), None);
    assert_eq!(Outcome::Won(65025).final_score(), Some(65025));
    assert_eq!(Outcome::Lost(0).final_score(), Some(0));
}
