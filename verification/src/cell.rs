//! The four states of a grid cell.

use vstd::prelude::*;

verus! {

/// What one grid cell holds.
#[derive(Clone, Copy, Debug, PartialEq, Eq, Structural)]
pub enum BoardField {
    Empty,
    Fruit,
    SnakeHead,
    SnakeTail,
}

impl BoardField {
    /// The character that stands for the cell in the textual board.
    pub open spec fn glyph(self) -> char {
        match self {
            BoardField::Empty => '.',
            BoardField::Fruit => '@',
            BoardField::SnakeHead => 'O',
            BoardField::SnakeTail => 'o',
        }
    }

    /// Whether the cell is part of the snake.
    pub open spec fn is_snake(self) -> bool {
        self == BoardField::SnakeHead || self == BoardField::SnakeTail
    }
}

} // verus!
