//! The board as text.

use vstd::prelude::*;
use crate::board::GameBoard;
use crate::cell::BoardField;
use crate::model::BoardModel;
use crate::position::Position;

verus! {

/// The glyphs of a run of cells, in order.
pub open spec fn glyphs(row: Seq<BoardField>) -> Seq<char> {
    row.map_values(|field: BoardField| field.glyph())
}

/// The text of one row: a glyph per cell, closed by carriage return and line feed.
pub open spec fn row_text(row: Seq<BoardField>) -> Seq<char> {
    glyphs(row) + seq!['\r', '\n']
}

/// The text of a run of rows: the rows' texts one after the other.
pub open spec fn rows_text(rows: Seq<Seq<BoardField>>) -> Seq<char>
    decreases rows.len(),
{
    if rows.len() == 0 {
        Seq::empty()
    } else {
        rows_text(rows.drop_last()) + row_text(rows.last())
    }
}

impl BoardModel {
    /// The board as text: one line per row from the top, one glyph per cell
    /// from the left.
    pub open spec fn text(self) -> Seq<char> {
        rows_text(self.cells)
    }
}

/// The offset, in the text of rows of `width` cells, of the character in
/// column `x` of row `y`: every row takes `width + 2` characters.
pub open spec fn text_offset(y: int, x: int, width: int) -> int {
    y * (width + 2) + x
}

/// Rows laid end to end do not overlap: the last character of row `y` lies
/// before the first of any later row `n`.
proof fn lemma_row_ends_before(y: int, n: int, width: int)
    requires
        0 <= y < n,
        0 <= width,
    ensures
        text_offset(y, width + 1, width) < text_offset(n, 0, width),
        0 <= text_offset(y, 0, width),
{
    assert(y * (width + 2) + width + 1 < n * (width + 2)) by (nonlinear_arith)
        requires
            0 <= y < n,
            0 <= width,
    ;
    assert(0 <= y * (width + 2)) by (nonlinear_arith)
        requires
            0 <= y,
            0 <= width,
    ;
}

/// Where the text of a run of rows of `width` cells keeps what: the glyph
/// of the cell in column `x` of row `y` stands at `text_offset(y, x, width)`,
/// and each row is closed by carriage return and line feed.
pub proof fn lemma_rows_text_layout(rows: Seq<Seq<BoardField>>, width: int)
    requires
        0 <= width,
        forall|y: int| 0 <= y < rows.len() ==> (#[trigger] rows[y]).len() == width,
    ensures
        rows_text(rows).len() == text_offset(rows.len() as int, 0, width),
        forall|y: int, x: int|
            0 <= y < rows.len() && 0 <= x < width ==> rows_text(rows)[#[trigger] text_offset(
                y,
                x,
                width,
            )] == rows[y][x].glyph(),
        forall|y: int|
            0 <= y < rows.len() ==> rows_text(rows)[#[trigger] text_offset(y, width, width)]
                == '\r' && rows_text(rows)[text_offset(y, width + 1, width)] == '\n',
    decreases rows.len(),
{
    if rows.len() > 0 {
        let above = rows.drop_last();
        let n = above.len() as int;
        lemma_rows_text_layout(above, width);
        assert(text_offset(n, 0, width) + width + 2 == text_offset(n + 1, 0, width)) by (nonlinear_arith);
        assert forall|y: int, x: int| 0 <= y < rows.len() && 0 <= x < width implies rows_text(
            rows,
        )[#[trigger] text_offset(y, x, width)] == rows[y][x].glyph() by {
            if y < n {
                lemma_row_ends_before(y, n, width);
            }
        }
        assert forall|y: int| 0 <= y < rows.len() implies rows_text(rows)[#[trigger] text_offset(
            y,
            width,
            width,
        )] == '\r' && rows_text(rows)[text_offset(y, width + 1, width)] == '\n' by {
            if y < n {
                lemma_row_ends_before(y, n, width);
                assert(rows_text(above)[text_offset(y, width, width)] == '\r');
            }
        }
    }
}

impl BoardModel {
    /// The layout of the board's text: `size.x + 2` characters per row, the
    /// glyph of the cell at `p` at offset `p.y * (size.x + 2) + p.x`, and
    /// carriage return and line feed behind the last cell of every row.
    pub proof fn lemma_text_layout(self)
        requires
            self.shaped(),
        ensures
            self.text().len() == self.size.y * (self.size.x + 2),
            forall|p: Position|
                self.on_grid(p) ==> self.text()[text_offset(p.y as int, p.x as int, self.size.x as int)]
                    == (#[trigger] self.cell(p)).glyph(),
            forall|y: int|
                0 <= y < self.size.y ==> self.text()[#[trigger] text_offset(
                    y,
                    self.size.x as int,
                    self.size.x as int,
                )] == '\r' && self.text()[text_offset(y, self.size.x + 1, self.size.x as int)] == '\n',
    {
        lemma_rows_text_layout(self.cells, self.size.x as int);
        assert forall|p: Position| self.on_grid(p) implies self.text()[text_offset(
            p.y as int,
            p.x as int,
            self.size.x as int,
        )] == (#[trigger] self.cell(p)).glyph() by {}
    }
}

impl BoardField {
    /// The one-character string that stands for the cell in the textual board.
    pub fn symbol(&self) -> (s: &'static str)
        ensures
            s@ == seq![self.glyph()],
    {
        proof {
            reveal_strlit(".");
            reveal_strlit("@");
            reveal_strlit("O");
            reveal_strlit("o");
        }
        match self {
            BoardField::Empty => ".",
            BoardField::Fruit => "@",
            BoardField::SnakeHead => "O",
            BoardField::SnakeTail => "o",
        }
    }
}

impl GameBoard {
    /// The board as text: `.` for an empty cell, `@` for the fruit, `O` for
    /// the head and `o` for a tail segment, one line per row, each line
    /// closed by carriage return and line feed.
    pub fn render(&self) -> (output: String)
        requires
            self@.shaped(),
        ensures
            output@ == self@.text(),
    {
        let mut output = String::new();
        let size = self.size();
        let mut y: u8 = 0;
        while y < size.y
            invariant
                self@.shaped(),
                size == self@.size,
                y <= size.y,
                output@ == rows_text(self@.cells.take(y as int)),
            decreases size.y - y,
        {
            let ghost above = output@;
            let ghost row = self@.cells[y as int];
            let mut x: u8 = 0;
            while x < size.x
                invariant
                    self@.shaped(),
                    size == self@.size,
                    y < size.y,
                    x <= size.x,
                    row == self@.cells[y as int],
                    row.len() == size.x,
                    output@ == above + glyphs(row.take(x as int)),
                decreases size.x - x,
            {
                let field = self.field_at(Position { x, y });
                output.append(field.symbol());
                proof {
                    assert(glyphs(row.take(x + 1)) =~= glyphs(row.take(x as int)).push(
                        row[x as int].glyph(),
                    ));
                }
                x += 1;
            }
            proof {
                reveal_strlit("\r\n");
            }
            output.append("\r\n");
            proof {
                assert(self@.cells.take(y + 1).drop_last() =~= self@.cells.take(y as int));
            }
            y += 1;
        }
        assert(self@.cells.take(y as int) =~= self@.cells);
        output
    }
}

} // verus!
