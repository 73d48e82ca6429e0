//! What holds of every game: the invariant of play, the bound on the
//! snake's length, growth, and reproducibility.

use vstd::prelude::*;
use crate::cell::BoardField;
use crate::direction::Direction;
use crate::model::{BoardModel, Outcome};
use crate::position::{lemma_wrap_step_cases, Position};

verus! {

/// The cell's number when the grid's cells are counted row by row.
pub open spec fn row_major_index(p: Position, size: Position) -> int {
    p.y * size.x + p.x
}

/// Counting row by row gives every cell of the grid a number of its own
/// below the number of cells.
proof fn lemma_row_major_index(p: Position, q: Position, size: Position)
    requires
        p.within(size),
        q.within(size),
    ensures
        0 <= row_major_index(p, size) < size.x * size.y,
        row_major_index(p, size) == row_major_index(q, size) ==> p == q,
{
    let w = size.x as int;
    let h = size.y as int;
    let (px, py) = (p.x as int, p.y as int);
    let (qx, qy) = (q.x as int, q.y as int);
    assert(0 <= py * w + px < w * h) by (nonlinear_arith)
        requires
            0 <= px < w,
            0 <= py < h,
    ;
    assert(py * w + px == qy * w + qx ==> py == qy && px == qx) by (nonlinear_arith)
        requires
            0 <= px < w,
            0 <= qx < w,
            0 <= py,
            0 <= qy,
    ;
}

/// A duplicate-free sequence of numbers drawn from `0..bound` has at most `bound` entries.
proof fn lemma_distinct_below(s: Seq<int>, bound: int)
    requires
        0 <= bound,
        s.no_duplicates(),
        forall|i: int| 0 <= i < s.len() ==> 0 <= #[trigger] s[i] < bound,
    ensures
        s.len() <= bound,
{
    let range = vstd::set_lib::set_int_range(0, bound);
    vstd::set_lib::lemma_int_range(0, bound);
    s.unique_seq_to_set();
    assert forall|v: int| s.to_set().contains(v) implies range.contains(v) by {
        let i = choose|i: int| 0 <= i < s.len() && s[i] == v;
    }
    vstd::set_lib::lemma_len_subset(s.to_set(), range);
}

/// The snake never outgrows the grid: a snake that agrees with the grid has
/// at most as many segments as the grid has cells, which is at most 65025.
pub proof fn lemma_snake_fits(m: BoardModel)
    requires
        m.snake.no_duplicates(),
        forall|i: int| 0 <= i < m.snake.len() ==> m.on_grid(#[trigger] m.snake[i]),
    ensures
        m.snake.len() <= m.size.x * m.size.y,
        m.snake.len() <= 65025,
{
    let size = m.size;
    let indices = Seq::new(m.snake.len(), |i: int| row_major_index(m.snake[i], size));
    assert forall|i: int, j: int| 0 <= i < indices.len() && 0 <= j < indices.len() && i != j implies indices[i]
        != indices[j] by {
        lemma_row_major_index(m.snake[i], m.snake[j], size);
    }
    assert forall|i: int| 0 <= i < indices.len() implies 0 <= #[trigger] indices[i] < size.x * size.y by {
        lemma_row_major_index(m.snake[i], m.snake[i], size);
    }
    assert(0 <= size.x * size.y <= 65025) by (nonlinear_arith)
        requires
            0 <= size.x <= 255,
            0 <= size.y <= 255,
    ;
    lemma_distinct_below(indices, size.x * size.y);
}

/// On a board in play the snake sequence tells which cells are snake:
/// exactly one cell is the head, namely the first coordinate of the
/// sequence, and the tail cells are exactly its other coordinates.
pub proof fn lemma_snake_cells(m: BoardModel)
    requires
        m.wf(),
    ensures
        forall|p: Position|
            m.on_grid(p) ==> (#[trigger] m.cell(p) == BoardField::SnakeHead <==> p == m.head()),
        forall|p: Position|
            m.on_grid(p) ==> (#[trigger] m.cell(p) == BoardField::SnakeTail <==> m.snake.contains(p)
                && p != m.head()),
{
    assert forall|p: Position| m.on_grid(p) && m.snake.contains(p) implies (#[trigger] m.cell(p)
        == BoardField::SnakeHead <==> p == m.head()) && (m.cell(p) == BoardField::SnakeTail <==> p
        != m.head()) by {
        let i = choose|i: int| 0 <= i < m.snake.len() && m.snake[i] == p;
        assert(m.cell(m.snake[i]) == (if i == 0 {
            BoardField::SnakeHead
        } else {
            BoardField::SnakeTail
        }));
    }
}

/// The grid is derived from the snake and the fruit: two boards in play of
/// the same dimensions, with the same snake sequence and the fruit on the
/// same cells, are the same board.
pub proof fn lemma_grid_is_derived(a: BoardModel, b: BoardModel)
    requires
        a.wf(),
        b.wf(),
        a.size == b.size,
        a.snake == b.snake,
        forall|p: Position|
            a.on_grid(p) ==> (#[trigger] a.cell(p) == BoardField::Fruit <==> b.cell(p)
                == BoardField::Fruit),
    ensures
        a == b,
{
    lemma_snake_cells(a);
    lemma_snake_cells(b);
    assert forall|y: int| 0 <= y < a.cells.len() implies #[trigger] a.cells[y] =~= b.cells[y] by {
        assert forall|x: int| 0 <= x < a.cells[y].len() implies a.cells[y][x] == b.cells[y][x] by {
            let p = Position { x: x as u8, y: y as u8 };
            assert(a.cell(p) == b.cell(p));
        }
    }
    assert(a.cells =~= b.cells);
}

/// What decides a tick. On a well-formed board the head always enters
/// another cell of the grid, and the tick
/// * is won exactly when that cell holds the fruit and no cell is picked for
///   the next one,
/// * is lost exactly when that cell holds a tail segment other than the tail
///   end, which moves out of the way in the same tick,
/// * goes on otherwise.
/// A terminal outcome carries the length of the snake sequence it leaves
/// behind: nothing was added on a win, and the tail end is gone on a loss.
pub proof fn lemma_step_outcome(m: BoardModel, direction: Direction, pick: Option<Position>)
    requires
        m.wf(),
    ensures
        m.on_grid(m.next_head(direction)),
        m.next_head(direction) != m.head(),
        m.step(direction, pick).1 is Won <==> m.cell(m.next_head(direction)) == BoardField::Fruit
            && pick is None,
        m.step(direction, pick).1 is Lost <==> m.cell(m.next_head(direction))
            == BoardField::SnakeTail && m.next_head(direction) != m.tail_end(),
        m.step(direction, pick).1 == Outcome::Won(m.snake.len() as u16) || m.step(direction, pick).1
            == Outcome::Lost((m.snake.len() - 1) as u16) || m.step(direction, pick).1
            == Outcome::Continue,
        m.step(direction, pick).1.score() matches Some(score) ==> score == m.step(
            direction,
            pick,
        ).0.snake.len(),
{
    let marked = m.with_cell(m.head(), BoardField::SnakeTail);
    lemma_wrap_step_cases(m.head(), m.size, direction);
    lemma_snake_fits(m);
    m.lemma_with_cell(m.head(), BoardField::SnakeTail);
    marked.lemma_with_cell(m.tail_end(), BoardField::Empty);
}

/// The invariant of play survives every tick that does not end the game:
/// afterwards exactly one cell is the head, the other coordinates of the
/// snake sequence are exactly the tail cells, and at most one cell holds a
/// fruit.
pub proof fn lemma_step_keeps_wf(m: BoardModel, direction: Direction, pick: Option<Position>)
    requires
        m.wf(),
        m.cell(m.next_head(direction)) == BoardField::Fruit ==> m.legal_pick(pick),
        m.step(direction, pick).1 == Outcome::Continue,
    ensures
        m.step(direction, pick).0.wf(),
        m.step(direction, pick).0.size == m.size,
        m.step(direction, pick).0.head() == m.next_head(direction),
{
    let next = m.next_head(direction);
    let head = m.head();
    let last = m.tail_end();
    let after = m.step(direction, pick).0;
    lemma_wrap_step_cases(head, m.size, direction);
    let marked = m.with_cell(head, BoardField::SnakeTail);
    m.lemma_with_cell(head, BoardField::SnakeTail);
    if m.cell(next) == BoardField::Fruit {
        let p = pick->0;
        let fruited = marked.with_cell(p, BoardField::Fruit);
        marked.lemma_with_cell(p, BoardField::Fruit);
        fruited.lemma_with_cell(next, BoardField::SnakeHead);
        // The grid afterwards, cell by cell.
        assert forall|q: Position| m.on_grid(q) implies #[trigger] after.cell(q) == (if q == next {
            BoardField::SnakeHead
        } else if q == p {
            BoardField::Fruit
        } else if q == head {
            BoardField::SnakeTail
        } else {
            m.cell(q)
        }) by {}
        // Neither the fruit's cell nor the picked one was part of the snake.
        assert forall|i: int| 0 <= i < m.snake.len() implies #[trigger] m.snake[i] != next && m.snake[i]
            != p by {}
        lemma_moved_snake_matches(m, after, next, m.snake);
        lemma_snake_cells_listed(m, after, next, m.snake);
    } else {
        let freed = marked.with_cell(last, BoardField::Empty);
        marked.lemma_with_cell(last, BoardField::Empty);
        let body = m.snake.drop_last();
        freed.with_snake(body).lemma_with_cell(next, BoardField::SnakeHead);
        // The grid afterwards, cell by cell.
        assert forall|q: Position| m.on_grid(q) implies #[trigger] after.cell(q) == (if q == next {
            BoardField::SnakeHead
        } else if q == last {
            BoardField::Empty
        } else if q == head {
            BoardField::SnakeTail
        } else {
            m.cell(q)
        }) by {}
        // The entered cell is free of the remaining body, or the tick were lost.
        assert forall|i: int| 0 <= i < body.len() implies #[trigger] body[i] != next && body[i]
            != last by {}
        assert forall|i: int| 0 <= i < body.len() implies after.on_grid(#[trigger] body[i])
            && after.cell(body[i]) == BoardField::SnakeTail by {}
        assert(body.no_duplicates());
        lemma_moved_snake_matches(m, after, next, body);
        // A cell that still shows as snake was one before, and not the tail end.
        assert forall|q: Position|
            m.on_grid(q) && q != next && (#[trigger] after.cell(q)).is_snake() implies exists|i: int|
            0 <= i < body.len() && body[i] == q by {
            assert(m.cell(q).is_snake());
            let i = choose|i: int| 0 <= i < m.snake.len() && m.snake[i] == q;
            assert(body[i] == q);
        }
        lemma_snake_cells_listed(m, after, next, body);
    }
}

/// A new head in front of segments that all show as tail: if `rest` is
/// duplicate-free, lies on the grid away from `next`, and `after` shows
/// `next` as the head and every coordinate of `rest` as tail, then the
/// sequence `next` followed by `rest` is duplicate-free, on the grid, and
/// marked cell by cell as a snake is.
proof fn lemma_moved_snake_matches(m: BoardModel, after: BoardModel, next: Position, rest: Seq<Position>)
    requires
        after.size == m.size,
        after.snake == seq![next] + rest,
        after.on_grid(next),
        after.cell(next) == BoardField::SnakeHead,
        rest.no_duplicates(),
        forall|i: int| 0 <= i < rest.len() ==> #[trigger] rest[i] != next,
        forall|i: int|
            0 <= i < rest.len() ==> after.on_grid(#[trigger] rest[i]) && after.cell(rest[i])
                == BoardField::SnakeTail,
    ensures
        after.snake.len() == rest.len() + 1,
        after.snake.no_duplicates(),
        forall|i: int| 0 <= i < after.snake.len() ==> after.on_grid(#[trigger] after.snake[i]),
        forall|i: int|
            0 <= i < after.snake.len() ==> after.cell(#[trigger] after.snake[i]) == (if i == 0 {
                BoardField::SnakeHead
            } else {
                BoardField::SnakeTail
            }),
{
    assert forall|i: int| 1 <= i < after.snake.len() implies #[trigger] after.snake[i] == rest[i - 1] by {}
}

/// Every snake cell of the grid after a move is listed in the moved
/// sequence: a snake cell of `after` is the entered cell `next` or was a
/// snake cell of `m` that `rest`, a prefix of the old sequence, still holds.
proof fn lemma_snake_cells_listed(m: BoardModel, after: BoardModel, next: Position, rest: Seq<Position>)
    requires
        m.wf(),
        after.size == m.size,
        after.snake == seq![next] + rest,
        rest.len() <= m.snake.len(),
        forall|i: int| 0 <= i < rest.len() ==> #[trigger] rest[i] == m.snake[i],
        forall|q: Position|
            m.on_grid(q) && q != next && (#[trigger] after.cell(q)).is_snake() ==> exists|i: int|
                0 <= i < rest.len() && rest[i] == q,
    ensures
        forall|q: Position|
            after.on_grid(q) && (#[trigger] after.cell(q)).is_snake() ==> after.snake.contains(q),
{
    assert forall|q: Position| after.on_grid(q) && (#[trigger] after.cell(q)).is_snake() implies after.snake.contains(
        q,
    ) by {
        if q == next {
            assert(after.snake[0] == q);
        } else {
            let i = choose|i: int| 0 <= i < rest.len() && rest[i] == q;
            assert(after.snake[i + 1] == q);
        }
    }
}

/// Growth: when the head enters the fruit and a cell for the next fruit was
/// picked, the game goes on with the entered cell put in front of the whole
/// old snake, one segment longer; no cell of the old snake is freed, and the
/// new fruit lies at the picked cell.
pub proof fn lemma_growth(m: BoardModel, direction: Direction, pick: Position)
    requires
        m.wf(),
        m.cell(m.next_head(direction)) == BoardField::Fruit,
        m.legal_pick(Some(pick)),
    ensures
        m.step(direction, Some(pick)).1 == Outcome::Continue,
        m.step(direction, Some(pick)).0.snake == seq![m.next_head(direction)] + m.snake,
        m.step(direction, Some(pick)).0.snake.len() == m.snake.len() + 1,
        forall|i: int|
            0 <= i < m.snake.len() ==> m.step(direction, Some(pick)).0.cell(#[trigger] m.snake[i])
                == BoardField::SnakeTail,
        m.step(direction, Some(pick)).0.cell(pick) == BoardField::Fruit,
{
    let after = m.step(direction, Some(pick)).0;
    let next = m.next_head(direction);
    let marked = m.with_cell(m.head(), BoardField::SnakeTail);
    lemma_step_outcome(m, direction, Some(pick));
    lemma_step_keeps_wf(m, direction, Some(pick));
    assert forall|i: int| 0 <= i < m.snake.len() implies after.cell(#[trigger] m.snake[i])
        == BoardField::SnakeTail by {
        assert(after.snake[i + 1] == m.snake[i]);
    }
    m.lemma_with_cell(m.head(), BoardField::SnakeTail);
    marked.lemma_with_cell(pick, BoardField::Fruit);
    marked.with_cell(pick, BoardField::Fruit).lemma_with_cell(next, BoardField::SnakeHead);
}

/// No growth: when the head enters a cell that holds neither the fruit nor a
/// tail segment, the game goes on with a snake of the same length, the
/// entered cell in front and the old tail end dropped, and the cell of the
/// old tail end is `Empty`.
pub proof fn lemma_no_growth(m: BoardModel, direction: Direction, pick: Option<Position>)
    requires
        m.wf(),
        m.cell(m.next_head(direction)) != BoardField::Fruit,
        m.cell(m.next_head(direction)) != BoardField::SnakeTail,
    ensures
        m.step(direction, pick).1 == Outcome::Continue,
        m.step(direction, pick).0.snake == seq![m.next_head(direction)] + m.snake.drop_last(),
        m.step(direction, pick).0.snake.len() == m.snake.len(),
        m.step(direction, pick).0.cell(m.tail_end()) == BoardField::Empty,
{
    let next = m.next_head(direction);
    let last = m.tail_end();
    let marked = m.with_cell(m.head(), BoardField::SnakeTail);
    let trimmed = marked.with_cell(last, BoardField::Empty).with_snake(m.snake.drop_last());
    lemma_step_outcome(m, direction, pick);
    m.lemma_with_cell(m.head(), BoardField::SnakeTail);
    marked.lemma_with_cell(last, BoardField::Empty);
    trimmed.lemma_with_cell(next, BoardField::SnakeHead);
}

/// Whether `states` is the course of a game that starts at `start` and is
/// fed `moves`, each a direction with the cell picked for the next fruit:
/// the first state is `start`, and every later one is what a tick makes of
/// the state before it.
pub open spec fn is_run(
    start: BoardModel,
    moves: Seq<(Direction, Option<Position>)>,
    states: Seq<BoardModel>,
) -> bool {
    &&& states.len() == moves.len() + 1
    &&& states[0] == start
    &&& forall|i: int|
        0 <= i < moves.len() ==> #[trigger] states[i + 1] == states[i].step(moves[i].0, moves[i].1).0
}

/// A game can be replayed: the start, the directions and the cells picked
/// for the fruits fix every state on the way. Two courses of the same game
/// under the same moves are the same sequence of states.
pub proof fn lemma_run_reproducible(
    start: BoardModel,
    moves: Seq<(Direction, Option<Position>)>,
    first: Seq<BoardModel>,
    second: Seq<BoardModel>,
)
    requires
        is_run(start, moves, first),
        is_run(start, moves, second),
    ensures
        first == second,
{
    lemma_runs_agree(start, moves, first, second, moves.len() as int);
    assert(first =~= second);
}

/// Two courses of the same game under the same moves agree up to any tick.
proof fn lemma_runs_agree(
    start: BoardModel,
    moves: Seq<(Direction, Option<Position>)>,
    first: Seq<BoardModel>,
    second: Seq<BoardModel>,
    upto: int,
)
    requires
        is_run(start, moves, first),
        is_run(start, moves, second),
        0 <= upto <= moves.len(),
    ensures
        forall|i: int| 0 <= i <= upto ==> first[i] == second[i],
    decreases upto,
{
    if upto > 0 {
        let i = upto - 1;
        lemma_runs_agree(start, moves, first, second, i);
        assert(first[i + 1] == first[i].step(moves[i].0, moves[i].1).0);
        assert(second[i + 1] == second[i].step(moves[i].0, moves[i].1).0);
    }
}

} // verus!
