//! Grid coordinates and movement on the torus.

use vstd::prelude::*;
use rustvision::vec::Vec2;
use crate::direction::Direction;

verus! {

/// A grid coordinate: `x` counts columns from the left edge, `y` counts rows
/// from the top edge. A value of this type also describes the dimensions of
/// a grid (`x` columns, `y` rows).
#[derive(Clone, Copy, Debug, PartialEq, Eq, Structural)]
pub struct Position {
    pub x: u8,
    pub y: u8,
}

impl Position {
    /// Whether the coordinate lies on a grid of `size.x` columns and `size.y` rows.
    pub open spec fn within(self, size: Position) -> bool {
        self.x < size.x && self.y < size.y
    }

    /// Strict row-major order: earlier rows first, and within a row earlier columns first.
    pub open spec fn precedes(self, other: Position) -> bool {
        self.y < other.y || (self.y == other.y && self.x < other.x)
    }
}

/// The neighbour of `p` in `direction` on a torus of `size.x` columns and
/// `size.y` rows: one coordinate moves by one, modulo the grid's extent on
/// that axis.
pub open spec fn wrap_step(p: Position, size: Position, direction: Direction) -> Position {
    match direction {
        Direction::Up => Position { x: p.x, y: ((p.y + size.y - 1) % (size.y as int)) as u8 },
        Direction::Down => Position { x: p.x, y: ((p.y + 1) % (size.y as int)) as u8 },
        Direction::Left => Position { x: ((p.x + size.x - 1) % (size.x as int)) as u8, y: p.y },
        Direction::Right => Position { x: ((p.x + 1) % (size.x as int)) as u8, y: p.y },
    }
}

/// Adds two coordinate pairs with `rustvision`'s `Add` for `Vec2<u8>`.
///
/// Trusted: the sum is taken component by component. The operands must not
/// overflow a `u8` on either axis, since `u8` addition is not defined there.
#[verifier::external_body]
pub(crate) fn vec2_sum(a: Position, b: Position) -> (r: Position)
    requires
        a.x + b.x <= u8::MAX,
        a.y + b.y <= u8::MAX,
    ensures
        r.x == a.x + b.x,
        r.y == a.y + b.y,
{
    let sum = Vec2 { x: a.x, y: a.y } + Vec2 { x: b.x, y: b.y };
    Position { x: sum.x, y: sum.y }
}

/// Subtracts two coordinate pairs with `rustvision`'s `Sub` for `Vec2<u8>`.
///
/// Trusted: the difference is taken component by component. Neither
/// component of `b` may exceed that of `a`, since `u8` subtraction is not
/// defined there.
#[verifier::external_body]
pub(crate) fn vec2_difference(a: Position, b: Position) -> (r: Position)
    requires
        b.x <= a.x,
        b.y <= a.y,
    ensures
        r.x == a.x - b.x,
        r.y == a.y - b.y,
{
    let difference = Vec2 { x: a.x, y: a.y } - Vec2 { x: b.x, y: b.y };
    Position { x: difference.x, y: difference.y }
}

/// Moves `p` one cell in `direction` on a grid of dimensions `size`,
/// re-entering from the opposite edge when the move leaves the grid.
pub fn step_position(p: Position, size: Position, direction: &Direction) -> (r: Position)
    requires
        p.within(size),
    ensures
        r == wrap_step(p, size, *direction),
        r.within(size),
{
    proof {
        lemma_wrap_step_cases(p, size, *direction);
    }
    match direction {
        Direction::Up => {
            if p.y == 0 {
                Position { x: p.x, y: size.y - 1 }
            } else {
                vec2_difference(p, Position { x: 0u8, y: 1u8 })
            }
        },
        Direction::Down => {
            if p.y >= size.y - 1 {
                Position { x: p.x, y: 0u8 }
            } else {
                vec2_sum(p, Position { x: 0u8, y: 1u8 })
            }
        },
        Direction::Left => {
            if p.x == 0 {
                Position { x: size.x - 1, y: p.y }
            } else {
                vec2_difference(p, Position { x: 1u8, y: 0u8 })
            }
        },
        Direction::Right => {
            if p.x >= size.x - 1 {
                Position { x: 0u8, y: p.y }
            } else {
                vec2_sum(p, Position { x: 1u8, y: 0u8 })
            }
        },
    }
}

/// One step back along an axis of extent `n`: from 0 to `n - 1`, otherwise down by one.
proof fn lemma_step_back(c: int, n: int)
    requires
        0 <= c < n,
    ensures
        (c + n - 1) % n == (if c == 0 { n - 1 } else { c - 1 }),
{
    if c == 0 {
        vstd::arithmetic::div_mod::lemma_small_mod((n - 1) as nat, n as nat);
    } else {
        vstd::arithmetic::div_mod::lemma_mod_add_multiples_vanish(c - 1, n);
        vstd::arithmetic::div_mod::lemma_small_mod((c - 1) as nat, n as nat);
    }
}

/// One step forward along an axis of extent `n`: from `n - 1` to 0, otherwise up by one.
proof fn lemma_step_forward(c: int, n: int)
    requires
        0 <= c < n,
    ensures
        (c + 1) % n == (if c == n - 1 { 0 } else { c + 1 }),
{
    if c == n - 1 {
        vstd::arithmetic::div_mod::lemma_mod_self_0(n);
    } else {
        vstd::arithmetic::div_mod::lemma_small_mod((c + 1) as nat, n as nat);
    }
}

/// Wraparound, spelled out: a step off an edge lands on the opposite edge of
/// the same row or column, and any other step moves by one; either way the
/// result stays on the grid and differs from the start when the axis moved
/// along has at least two cells.
pub proof fn lemma_wrap_step_cases(p: Position, size: Position, direction: Direction)
    requires
        p.within(size),
    ensures
        wrap_step(p, size, direction).within(size),
        wrap_step(p, size, direction) == (match direction {
            Direction::Up => Position { x: p.x, y: if p.y == 0 { (size.y - 1) as u8 } else { (p.y - 1) as u8 } },
            Direction::Down => Position { x: p.x, y: if p.y == size.y - 1 { 0u8 } else { (p.y + 1) as u8 } },
            Direction::Left => Position { x: if p.x == 0 { (size.x - 1) as u8 } else { (p.x - 1) as u8 }, y: p.y },
            Direction::Right => Position { x: if p.x == size.x - 1 { 0u8 } else { (p.x + 1) as u8 }, y: p.y },
        }),
        size.x >= 2 && size.y >= 2 ==> wrap_step(p, size, direction) != p,
{
    lemma_step_back(p.y as int, size.y as int);
    lemma_step_forward(p.y as int, size.y as int);
    lemma_step_back(p.x as int, size.x as int);
    lemma_step_forward(p.x as int, size.x as int);
}

} // verus!
