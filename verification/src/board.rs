//! The board in memory: construction, fruit placement and the tick.

use vstd::prelude::*;
use std::collections::VecDeque;
use rand::seq::SliceRandom;
use crate::cell::BoardField;
use crate::direction::Direction;
use crate::laws::{lemma_snake_fits, lemma_step_keeps_wf, lemma_step_outcome};
use crate::model::{BoardModel, Outcome};
use crate::position::{step_position, Position};

verus! {

/// The board of a running game: the grid of cells, and the snake's
/// coordinates from head to tail end.
pub struct GameBoard {
    board: Vec<Vec<BoardField>>,
    snake: VecDeque<Position>,
    size: Position,
}

impl View for GameBoard {
    type V = BoardModel;

    closed spec fn view(&self) -> BoardModel {
        BoardModel {
            size: self.size,
            cells: Seq::new(self.board@.len(), |y: int| self.board@[y]@),
            snake: self.snake@,
        }
    }
}

/// Draws one element of `fields` with `rand`'s `SliceRandom::choose`, fed by
/// the generator that `rand::thread_rng` hands out.
///
/// Trusted: the result is `None` exactly when `fields` is empty, and
/// otherwise one of its elements. Which element comes back is left open: it
/// differs from call to call. The generator is seeded by the operating
/// system on a thread's first draw, and `rand` gives up with a panic if the
/// system cannot; no argument has a bearing on that.
#[verifier::external_body]
fn choose_position(fields: &Vec<Position>) -> (pick: Option<Position>)
    ensures
        pick is None <==> fields@.len() == 0,
        pick matches Some(p) ==> fields@.contains(p),
{
    fields.choose(&mut rand::thread_rng()).copied()
}

impl GameBoard {
    /// A new board without a fruit: all cells `Empty` but the top-left one,
    /// which holds the head of a one-segment snake.
    pub fn bare(size: Position) -> (r: GameBoard)
        requires
            size.x >= 2,
            size.y >= 2,
        ensures
            r@ == BoardModel::initial(size),
            r@.wf(),
    {
        let mut board: Vec<Vec<BoardField>> = Vec::new();
        let mut y: u8 = 0;
        while y < size.y
            invariant
                y <= size.y,
                board@.len() == y,
                forall|j: int|
                    0 <= j < y ==> (#[trigger] board@[j])@ == Seq::new(
                        size.x as nat,
                        |x: int| BoardField::Empty,
                    ),
            decreases size.y - y,
        {
            let mut row: Vec<BoardField> = Vec::new();
            let mut x: u8 = 0;
            while x < size.x
                invariant
                    x <= size.x,
                    row@.len() == x,
                    forall|i: int| 0 <= i < x ==> #[trigger] row@[i] == BoardField::Empty,
                decreases size.x - x,
            {
                row.push(BoardField::Empty);
                x += 1;
            }
            board.push(row);
            y += 1;
        }
        board[0][0] = BoardField::SnakeHead;
        let mut snake: VecDeque<Position> = VecDeque::new();
        snake.push_front(Position { x: 0u8, y: 0u8 });
        let r = GameBoard { board, snake, size };
        proof {
            assert(r@.cells =~~= BoardModel::initial(size).cells);
            BoardModel::lemma_initial(size);
        }
        r
    }

    /// A new game: the one-segment snake at the top-left cell and one fruit
    /// on a cell drawn at random from all the others.
    pub fn new(size: Position) -> (r: GameBoard)
        requires
            size.x >= 2,
            size.y >= 2,
        ensures
            r@.wf(),
            exists|p: Position|
                p.within(size) && p != (Position { x: 0, y: 0 }) && r@
                    == #[trigger] BoardModel::initial(size).with_cell(p, BoardField::Fruit),
    {
        let mut game_board = GameBoard::bare(size);
        let ghost start = game_board@;
        proof {
            BoardModel::lemma_initial(size);
        }
        game_board.place_new_fruit();
        proof {
            let p = choose|p: Position|
                start.legal_pick(Some(p)) && game_board@ == #[trigger] start.with_cell(
                    p,
                    BoardField::Fruit,
                );
            start.lemma_fruit_keeps_wf(p);
        }
        game_board
    }

    /// The grid's dimensions: `x` columns and `y` rows.
    pub fn size(&self) -> (r: Position)
        ensures
            r == self@.size,
    {
        self.size
    }

    /// The content of the cell at `p`.
    pub fn field_at(&self, p: Position) -> (r: BoardField)
        requires
            self@.shaped(),
            self@.on_grid(p),
        ensures
            r == self@.cell(p),
    {
        self.board[p.y as usize][p.x as usize]
    }

    /// The number of segments of the snake; after a terminal tick, the score.
    pub fn snake_len(&self) -> (r: usize)
        ensures
            r == self@.snake.len(),
    {
        self.snake.len()
    }

    /// The snake's coordinates from head to tail end.
    pub fn snake(&self) -> (r: Vec<Position>)
        ensures
            r@ == self@.snake,
    {
        let mut segments: Vec<Position> = Vec::new();
        let mut i: usize = 0;
        while i < self.snake.len()
            invariant
                i <= self.snake@.len(),
                segments@ == self.snake@.take(i as int),
            decreases self.snake@.len() - i,
        {
            segments.push(self.snake[i]);
            i += 1;
        }
        segments
    }

    /// Writes `field` into the cell at `p`.
    fn put(&mut self, p: Position, field: BoardField)
        requires
            old(self)@.shaped(),
            old(self)@.on_grid(p),
        ensures
            final(self)@ == old(self)@.with_cell(p, field),
    {
        assert(self@.cells[p.y as int].len() == self.size.x);
        self.board[p.y as usize][p.x as usize] = field;
        proof {
            assert(self@.cells =~~= old(self)@.with_cell(p, field).cells);
        }
    }

    /// The `Empty` cells of the grid, each once, row by row from the top and
    /// within a row from the left.
    pub fn empty_fields(&self) -> (fields: Vec<Position>)
        requires
            self@.shaped(),
        ensures
            self@.lists_empty_cells(fields@),
    {
        let mut fields: Vec<Position> = Vec::new();
        let mut y: u8 = 0;
        while y < self.size.y
            invariant
                self@.shaped(),
                y <= self.size.y,
                forall|i: int|
                    0 <= i < fields@.len() ==> self@.on_grid(#[trigger] fields@[i]) && self@.cell(
                        fields@[i],
                    ) == BoardField::Empty && fields@[i].y < y,
                forall|p: Position|
                    self@.on_grid(p) && p.y < y && #[trigger] self@.cell(p) == BoardField::Empty
                        ==> fields@.contains(p),
                forall|i: int, j: int|
                    0 <= i < j < fields@.len() ==> (#[trigger] fields@[i]).precedes(
                        #[trigger] fields@[j],
                    ),
            decreases self.size.y - y,
        {
            let mut x: u8 = 0;
            while x < self.size.x
                invariant
                    self@.shaped(),
                    y < self.size.y,
                    x <= self.size.x,
                    forall|i: int|
                        0 <= i < fields@.len() ==> self@.on_grid(#[trigger] fields@[i])
                            && self@.cell(fields@[i]) == BoardField::Empty && (fields@[i].y < y || (
                        fields@[i].y == y && fields@[i].x < x)),
                    forall|p: Position|
                        self@.on_grid(p) && (p.y < y || (p.y == y && p.x < x)) && #[trigger] self@.cell(
                            p,
                        ) == BoardField::Empty ==> fields@.contains(p),
                    forall|i: int, j: int|
                        0 <= i < j < fields@.len() ==> (#[trigger] fields@[i]).precedes(
                            #[trigger] fields@[j],
                        ),
                decreases self.size.x - x,
            {
                let here = Position { x, y };
                let ghost before = fields@;
                if self.field_at(here) == BoardField::Empty {
                    fields.push(here);
                }
                proof {
                    assert forall|p: Position|
                        self@.on_grid(p) && (p.y < y || (p.y == y && p.x < x + 1))
                            && #[trigger] self@.cell(p) == BoardField::Empty implies fields@.contains(
                        p,
                    ) by {
                        if p == here {
                            assert(fields@[before.len() as int] == p);
                        } else {
                            let i = choose|i: int| 0 <= i < before.len() && before[i] == p;
                            assert(fields@[i] == p);
                        }
                    }
                }
                x += 1;
            }
            y += 1;
        }
        fields
    }

    /// Puts a fruit on the picked cell, if there is one. Returns whether a
    /// fruit was placed: `false` means that the grid has no `Empty` cell left.
    pub fn place_fruit_at(&mut self, pick: Option<Position>) -> (placed: bool)
        requires
            old(self)@.shaped(),
            old(self)@.legal_pick(pick),
        ensures
            placed == pick is Some,
            placed == old(self)@.has_empty(),
            final(self)@ == old(self)@.with_fruit_at(pick),
    {
        match pick {
            Some(fruit_pos) => {
                self.put(fruit_pos, BoardField::Fruit);
                true
            },
            None => false,
        }
    }

    /// Puts a fruit on an `Empty` cell drawn at random. Returns whether a
    /// fruit was placed: `false` means that the grid has no `Empty` cell
    /// left, and then nothing changes.
    pub fn place_new_fruit(&mut self) -> (placed: bool)
        requires
            old(self)@.shaped(),
        ensures
            placed == old(self)@.has_empty(),
            placed ==> exists|p: Position|
                old(self)@.legal_pick(Some(p)) && final(self)@ == #[trigger] old(self)@.with_cell(
                    p,
                    BoardField::Fruit,
                ),
            !placed ==> final(self)@ == old(self)@,
    {
        let pick = self.draw_pick();
        self.place_fruit_at(pick)
    }

    /// Draws the cell for a new fruit at random among the `Empty` cells;
    /// `None` when the grid has none.
    pub fn draw_pick(&self) -> (pick: Option<Position>)
        requires
            self@.shaped(),
        ensures
            self@.legal_pick(pick),
    {
        let empty_fields = self.empty_fields();
        let pick = choose_position(&empty_fields);
        proof {
            // With no field listed, no cell of the grid is empty.
            if pick is None {
                assert forall|p: Position| self@.on_grid(p) implies #[trigger] self@.cell(p)
                    != BoardField::Empty by {}
            }
        }
        pick
    }

    /// The cell the head enters when the snake moves in `direction`:
    /// the head's neighbour on the torus.
    pub fn next_head(&self, direction: &Direction) -> (r: Position)
        requires
            self@.wf(),
        ensures
            r == self@.next_head(*direction),
            self@.on_grid(r),
            r != self@.head(),
    {
        proof {
            lemma_step_outcome(self@, *direction, None);
        }
        step_position(self.snake[0], self.size, direction)
    }

    /// One tick with the cell for the next fruit given by the caller.
    ///
    /// The snake moves one cell in `direction`, wrapping round the edges.
    /// `pick` is read only when the head enters the fruit; `None` there says
    /// that no `Empty` cell is left, which wins the game. After a terminal
    /// outcome the board is no longer in play.
    pub fn update_with_pick(&mut self, direction: &Direction, pick: Option<Position>) -> (outcome:
        Outcome)
        requires
            old(self)@.wf(),
            old(self)@.cell(old(self)@.next_head(*direction)) == BoardField::Fruit ==> old(
                self,
            )@.legal_pick(pick),
        ensures
            final(self)@ == old(self)@.step(*direction, pick).0,
            outcome == old(self)@.step(*direction, pick).1,
            outcome == Outcome::Continue ==> final(self)@.wf(),
            outcome.score() matches Some(score) ==> score == final(self)@.snake.len(),
            final(self)@.snake.len() <= final(self)@.size.x * final(self)@.size.y,
    {
        let ghost start = self@;
        let head_pos = self.snake[0];
        let tail_end_pos = self.snake[self.snake.len() - 1];
        proof {
            lemma_step_outcome(start, *direction, pick);
            lemma_snake_fits(start);
            start.lemma_with_cell(head_pos, BoardField::SnakeTail);
        }
        let next_head_pos = step_position(head_pos, self.size, direction);

        self.put(head_pos, BoardField::SnakeTail);
        let ghost marked = self@;

        if self.field_at(next_head_pos) == BoardField::Fruit {
            proof {
                if pick is Some {
                    marked.lemma_with_cell(pick->0, BoardField::Fruit);
                }
            }
            if !self.place_fruit_at(pick) {
                return Outcome::Won(self.snake.len() as u16);
            }
        } else {
            proof {
                marked.lemma_with_cell(tail_end_pos, BoardField::Empty);
            }
            self.put(tail_end_pos, BoardField::Empty);
            self.snake.pop_back();
        }
        let ghost settled = self@;

        if self.field_at(next_head_pos) == BoardField::SnakeTail {
            return Outcome::Lost(self.snake.len() as u16);
        }
        self.put(next_head_pos, BoardField::SnakeHead);
        self.snake.push_front(next_head_pos);
        proof {
            assert(self@ == settled.with_cell(next_head_pos, BoardField::SnakeHead).with_snake(
                seq![next_head_pos] + settled.snake,
            ));
            lemma_step_keeps_wf(start, *direction, pick);
            lemma_snake_fits(self@);
        }
        Outcome::Continue
    }

    /// One tick: moves the snake one cell in `direction`, wrapping round the
    /// edges, and returns the score when the tick ended the game.
    ///
    /// When the head enters the fruit, the cell for the next fruit is drawn
    /// at random among the `Empty` cells. After a score is returned the
    /// board is no longer in play.
    pub fn update(&mut self, direction: &Direction) -> (score: Option<u16>)
        requires
            old(self)@.wf(),
        ensures
            exists|pick: Option<Position>|
                #[trigger] old(self)@.legal_pick(pick) && final(self)@ == old(self)@.step(
                    *direction,
                    pick,
                ).0 && score == old(self)@.step(*direction, pick).1.score(),
            old(self)@.cell(old(self)@.next_head(*direction)) != BoardField::Fruit ==> final(self)@
                == old(self)@.step(*direction, None).0 && score == old(self)@.step(
                *direction,
                None,
            ).1.score(),
            score is None ==> final(self)@.wf(),
            score matches Some(n) ==> n == final(self)@.snake.len(),
    {
        let next_head_pos = self.next_head(direction);
        let outcome = if self.field_at(next_head_pos) == BoardField::Fruit {
            let pick = self.draw_pick();
            self.update_with_pick(direction, pick)
        } else {
            proof {
                let start = old(self)@;
                let unused: Option<Position> = if start.has_empty() {
                    Some(choose|p: Position| start.on_grid(p) && #[trigger] start.cell(p) == BoardField::Empty)
                } else {
                    None
                };
                assert(start.legal_pick(unused));
            }
            self.update_with_pick(direction, None)
        };
        outcome.final_score()
    }
}

} // verus!
