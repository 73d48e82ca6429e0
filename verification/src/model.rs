//! The game as mathematics: the state, its invariant and the tick as a
//! function from state, direction and fruit pick to state and outcome.

use vstd::prelude::*;
use crate::cell::BoardField;
use crate::direction::Direction;
use crate::position::{wrap_step, Position};

verus! {

/// How one tick ended. The terminal variants carry the score: the length of
/// the snake sequence at the moment the game ended.
#[derive(Clone, Copy, Debug, PartialEq, Eq, Structural)]
pub enum Outcome {
    /// The snake moved; the game goes on.
    Continue,
    /// The snake ate the fruit and no empty cell was left for another one.
    Won(u16),
    /// The snake ran into its own body.
    Lost(u16),
}

impl Outcome {
    /// The score of a terminal outcome, `None` while the game goes on.
    pub open spec fn score(self) -> Option<u16> {
        match self {
            Outcome::Continue => None,
            Outcome::Won(n) => Some(n),
            Outcome::Lost(n) => Some(n),
        }
    }

    /// The score carried by a terminal outcome; `None` while the game goes on.
    pub fn final_score(&self) -> (r: Option<u16>)
        ensures
            r == self.score(),
    {
        match self {
            Outcome::Continue => None,
            Outcome::Won(n) => Some(*n),
            Outcome::Lost(n) => Some(*n),
        }
    }
}

/// The state of a game as mathematics: the grid's dimensions, its cells row
/// by row, and the snake's coordinates from head to tail end.
pub struct BoardModel {
    pub size: Position,
    pub cells: Seq<Seq<BoardField>>,
    pub snake: Seq<Position>,
}

impl BoardModel {
    /// The grid has at least two columns and two rows, and `cells` holds
    /// `size.y` rows of `size.x` cells each.
    pub open spec fn shaped(self) -> bool {
        &&& self.size.x >= 2
        &&& self.size.y >= 2
        &&& self.cells.len() == self.size.y
        &&& forall|y: int| 0 <= y < self.cells.len() ==> (#[trigger] self.cells[y]).len() == self.size.x
    }

    /// Whether `p` is a coordinate of this grid.
    pub open spec fn on_grid(self, p: Position) -> bool {
        p.within(self.size)
    }

    /// The content of the cell at `p`.
    pub open spec fn cell(self, p: Position) -> BoardField {
        self.cells[p.y as int][p.x as int]
    }

    /// The same state with the cell at `p` holding `field`.
    pub open spec fn with_cell(self, p: Position, field: BoardField) -> BoardModel {
        BoardModel {
            cells: self.cells.update(p.y as int, self.cells[p.y as int].update(p.x as int, field)),
            ..self
        }
    }

    /// The same state with a fruit on the picked cell, if one was picked.
    pub open spec fn with_fruit_at(self, pick: Option<Position>) -> BoardModel {
        match pick {
            Some(p) => self.with_cell(p, BoardField::Fruit),
            None => self,
        }
    }

    /// The same grid with another snake sequence.
    pub open spec fn with_snake(self, snake: Seq<Position>) -> BoardModel {
        BoardModel { snake, ..self }
    }

    /// The coordinate of the snake's head.
    pub open spec fn head(self) -> Position {
        self.snake[0]
    }

    /// The coordinate of the snake's last segment.
    pub open spec fn tail_end(self) -> Position {
        self.snake.last()
    }

    /// The snake sequence and the grid agree: the sequence is non-empty,
    /// free of duplicates and on the grid; its first coordinate is the one
    /// `SnakeHead` cell and the others are exactly the `SnakeTail` cells.
    pub open spec fn snake_matches_grid(self) -> bool {
        &&& self.snake.len() >= 1
        &&& self.snake.no_duplicates()
        &&& forall|i: int| 0 <= i < self.snake.len() ==> self.on_grid(#[trigger] self.snake[i])
        &&& forall|i: int|
            0 <= i < self.snake.len() ==> self.cell(#[trigger] self.snake[i]) == (if i == 0 {
                BoardField::SnakeHead
            } else {
                BoardField::SnakeTail
            })
        &&& forall|p: Position|
            self.on_grid(p) && (#[trigger] self.cell(p)).is_snake() ==> self.snake.contains(p)
    }

    /// No two cells of the grid hold a fruit.
    pub open spec fn at_most_one_fruit(self) -> bool {
        forall|p: Position, q: Position|
            self.on_grid(p) && self.on_grid(q) && #[trigger] self.cell(p) == BoardField::Fruit
                && #[trigger] self.cell(q) == BoardField::Fruit ==> p == q
    }

    /// The invariant of a game in play.
    pub open spec fn wf(self) -> bool {
        &&& self.shaped()
        &&& self.snake_matches_grid()
        &&& self.at_most_one_fruit()
    }

    /// Whether some cell of the grid is `Empty`.
    pub open spec fn has_empty(self) -> bool {
        exists|p: Position| self.on_grid(p) && #[trigger] self.cell(p) == BoardField::Empty
    }

    /// Whether `pick` is an admissible choice of a cell for a new fruit: one
    /// of the grid's `Empty` cells, or `None` when the grid has none.
    pub open spec fn legal_pick(self, pick: Option<Position>) -> bool {
        match pick {
            Some(p) => self.on_grid(p) && self.cell(p) == BoardField::Empty,
            None => !self.has_empty(),
        }
    }

    /// Whether `fields` lists the grid's `Empty` cells, each once, in
    /// row-major order.
    pub open spec fn lists_empty_cells(self, fields: Seq<Position>) -> bool {
        &&& forall|i: int|
            0 <= i < fields.len() ==> self.on_grid(#[trigger] fields[i]) && self.cell(fields[i])
                == BoardField::Empty
        &&& forall|p: Position|
            self.on_grid(p) && #[trigger] self.cell(p) == BoardField::Empty ==> fields.contains(p)
        &&& forall|i: int, j: int|
            0 <= i < j < fields.len() ==> (#[trigger] fields[i]).precedes(#[trigger] fields[j])
    }

    /// The position of a new game before its first fruit: every cell
    /// `Empty` but the top-left one, where the one-segment snake sits.
    pub open spec fn initial(size: Position) -> BoardModel {
        BoardModel {
            size,
            cells: Seq::new(
                size.y as nat,
                |y: int|
                    Seq::new(
                        size.x as nat,
                        |x: int|
                            if x == 0 && y == 0 {
                                BoardField::SnakeHead
                            } else {
                                BoardField::Empty
                            },
                    ),
            ),
            snake: seq![Position { x: 0, y: 0 }],
        }
    }

    /// The cell the head enters when the snake moves in `direction`.
    pub open spec fn next_head(self, direction: Direction) -> Position {
        wrap_step(self.head(), self.size, direction)
    }

    /// One tick: the state after the snake moves in `direction`, and how the
    /// tick ended. `pick` is the cell chosen for the next fruit; it is read
    /// only when the head enters the fruit.
    ///
    /// The old head becomes a tail segment first. Entering the fruit with no
    /// cell left for another one wins, with nothing else changed. Entering
    /// the fruit otherwise grows the snake and puts the new fruit at `pick`.
    /// Any other move frees the tail end before the entered cell is looked
    /// at: a tail segment there loses, with no head placed; otherwise the
    /// head is placed there.
    pub open spec fn step(self, direction: Direction, pick: Option<Position>) -> (BoardModel, Outcome) {
        let next = self.next_head(direction);
        let marked = self.with_cell(self.head(), BoardField::SnakeTail);
        if self.cell(next) == BoardField::Fruit {
            match pick {
                None => (marked, Outcome::Won(self.snake.len() as u16)),
                Some(p) => (
                    marked.with_cell(p, BoardField::Fruit).with_cell(
                        next,
                        BoardField::SnakeHead,
                    ).with_snake(seq![next] + self.snake),
                    Outcome::Continue,
                ),
            }
        } else {
            let trimmed = marked.with_cell(self.tail_end(), BoardField::Empty).with_snake(
                self.snake.drop_last(),
            );
            if trimmed.cell(next) == BoardField::SnakeTail {
                (trimmed, Outcome::Lost(trimmed.snake.len() as u16))
            } else {
                (
                    trimmed.with_cell(next, BoardField::SnakeHead).with_snake(
                        seq![next] + trimmed.snake,
                    ),
                    Outcome::Continue,
                )
            }
        }
    }

    /// Writing one cell keeps the grid's shape and the snake sequence, and
    /// changes the content of that cell alone.
    pub proof fn lemma_with_cell(self, q: Position, field: BoardField)
        requires
            self.shaped(),
            self.on_grid(q),
        ensures
            self.with_cell(q, field).shaped(),
            self.with_cell(q, field).size == self.size,
            self.with_cell(q, field).snake == self.snake,
            forall|p: Position|
                self.on_grid(p) ==> #[trigger] self.with_cell(q, field).cell(p) == (if p == q {
                    field
                } else {
                    self.cell(p)
                }),
    {
        let after = self.with_cell(q, field);
        assert forall|y: int| 0 <= y < after.cells.len() implies (#[trigger] after.cells[y]).len()
            == after.size.x by {}
        assert forall|p: Position| self.on_grid(p) implies #[trigger] after.cell(p) == (if p == q {
            field
        } else {
            self.cell(p)
        }) by {}
    }

    /// A fruit put on an `Empty` cell of a board that had none leaves the
    /// board well formed.
    pub proof fn lemma_fruit_keeps_wf(self, p: Position)
        requires
            self.shaped(),
            self.snake_matches_grid(),
            self.legal_pick(Some(p)),
            forall|q: Position| self.on_grid(q) ==> #[trigger] self.cell(q) != BoardField::Fruit,
        ensures
            self.with_cell(p, BoardField::Fruit).wf(),
    {
        let after = self.with_cell(p, BoardField::Fruit);
        self.lemma_with_cell(p, BoardField::Fruit);
        assert forall|i: int| 0 <= i < after.snake.len() implies after.on_grid(#[trigger] after.snake[i])
            && after.cell(after.snake[i]) == (if i == 0 {
            BoardField::SnakeHead
        } else {
            BoardField::SnakeTail
        }) by {}
        assert forall|q: Position| after.on_grid(q) && (#[trigger] after.cell(q)).is_snake() implies after.snake.contains(
            q,
        ) by {}
    }

    /// The starting position is well formed and a top-left head is all it holds.
    pub proof fn lemma_initial(size: Position)
        requires
            size.x >= 2,
            size.y >= 2,
        ensures
            BoardModel::initial(size).wf(),
            BoardModel::initial(size).has_empty(),
            forall|p: Position|
                p.within(size) ==> #[trigger] BoardModel::initial(size).cell(p) == (if p == (Position {
                    x: 0,
                    y: 0,
                }) {
                    BoardField::SnakeHead
                } else {
                    BoardField::Empty
                }),
    {
        let m = BoardModel::initial(size);
        let right = Position { x: 1, y: 0 };
        assert(m.snake[0] == Position { x: 0, y: 0 });
        assert(m.on_grid(right) && m.cell(right) == BoardField::Empty);
    }
}

} // verus!
