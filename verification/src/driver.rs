//! The decisions of the loop that drives a game, one call per tick.

use vstd::prelude::*;
use crate::board::GameBoard;
use crate::cell::BoardField;
use crate::direction::Direction;
use crate::model::{BoardModel, Outcome};
use crate::position::Position;

verus! {

/// The state of the game loop as mathematics: the board and the direction
/// the snake is travelling in.
pub struct LoopModel {
    pub board: BoardModel,
    pub direction: Direction,
}

/// The direction in force after a tick boundary: the request, when there is
/// one, and the direction held so far otherwise.
pub open spec fn steered(current: Direction, request: Option<Direction>) -> Direction {
    match request {
        Some(direction) => direction,
        None => current,
    }
}

/// What the loop that drives a game decides: which direction is in force,
/// and what one tick does to the board. Waiting for the next tick, reading
/// the keyboard and drawing are the caller's part.
pub struct GameLoop {
    board: GameBoard,
    direction: Direction,
}

impl View for GameLoop {
    type V = LoopModel;

    closed spec fn view(&self) -> LoopModel {
        LoopModel { board: self.board@, direction: self.direction }
    }
}

impl GameLoop {
    /// A new game on a grid of `size.x` columns and `size.y` rows, the snake
    /// heading right.
    pub fn new(size: Position) -> (r: GameLoop)
        requires
            size.x >= 2,
            size.y >= 2,
        ensures
            r@.direction == Direction::Right,
            r@.board.wf(),
            exists|p: Position|
                p.within(size) && p != (Position { x: 0, y: 0 }) && r@.board
                    == #[trigger] BoardModel::initial(size).with_cell(p, BoardField::Fruit),
    {
        GameLoop { board: GameBoard::new(size), direction: Direction::Right }
    }

    /// A loop over a board that is already set up, the snake heading right.
    pub fn with_board(board: GameBoard) -> (r: GameLoop)
        ensures
            r@.board == board@,
            r@.direction == Direction::Right,
    {
        GameLoop { board, direction: Direction::Right }
    }

    /// The board as it stands.
    pub fn board(&self) -> (r: &GameBoard)
        ensures
            r@ == self@.board,
    {
        &self.board
    }

    /// The direction in force.
    pub fn direction(&self) -> (r: Direction)
        ensures
            r == self@.direction,
    {
        self.direction
    }

    /// Takes up a direction request, if there is one. No request is turned
    /// down, not even one that reverses the snake into its own body.
    pub fn steer(&mut self, request: Option<Direction>)
        ensures
            final(self)@.direction == steered(old(self)@.direction, request),
            final(self)@.board == old(self)@.board,
    {
        match request {
            Some(direction) => {
                self.direction = direction;
            },
            None => {},
        }
    }

    /// One tick with the cell for the next fruit given by the caller: takes
    /// up the pending request, if any, then moves the snake once in the
    /// direction in force.
    pub fn tick_with_pick(&mut self, request: Option<Direction>, pick: Option<Position>) -> (outcome:
        Outcome)
        requires
            old(self)@.board.wf(),
            old(self)@.board.cell(
                old(self)@.board.next_head(steered(old(self)@.direction, request)),
            ) == BoardField::Fruit ==> old(self)@.board.legal_pick(pick),
        ensures
            final(self)@.direction == steered(old(self)@.direction, request),
            final(self)@.board == old(self)@.board.step(final(self)@.direction, pick).0,
            outcome == old(self)@.board.step(final(self)@.direction, pick).1,
            outcome == Outcome::Continue ==> final(self)@.board.wf(),
    {
        self.steer(request);
        let direction = self.direction;
        self.board.update_with_pick(&direction, pick)
    }

    /// One tick: takes up the pending request, if any, then moves the snake
    /// once in the direction in force. Returns the score when the tick ended
    /// the game; the loop is to stop then.
    pub fn tick(&mut self, request: Option<Direction>) -> (score: Option<u16>)
        requires
            old(self)@.board.wf(),
        ensures
            final(self)@.direction == steered(old(self)@.direction, request),
            exists|pick: Option<Position>|
                #[trigger] old(self)@.board.legal_pick(pick) && final(self)@.board == old(
                    self,
                )@.board.step(final(self)@.direction, pick).0 && score == old(self)@.board.step(
                    final(self)@.direction,
                    pick,
                ).1.score(),
            score is None ==> final(self)@.board.wf(),
            score matches Some(n) ==> n == final(self)@.board.snake.len(),
    {
        self.steer(request);
        let direction = self.direction;
        self.board.update(&direction)
    }
}

} // verus!
