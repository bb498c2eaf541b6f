//! The position drawn for a terminal: eight rows of eight shaded cells, the
//! eighth rank at the top, each cell two lines high and four columns wide.

use crate::board::{Board, Color, Piece};
use crate::square::{Square, SquareColor, SQUARES};
use crate::text::{holds_in_order, lemma_holds_between, lemma_holds_through};
use colored::Colorize;
use vstd::prelude::*;
use vstd::string::StringExecFns;

verus! {

/// The two lines of one cell: the upper one blank, the lower one with the
/// symbol of the piece that stands on the square, if any.
pub struct Cell {
    pub upper: String,
    pub lower: String,
}

/// Gives the text a green background with `colored::Colorize::on_green` and
/// renders it. Whether colour codes are written depends on the environment
/// of the process. Where none are, the text comes back as it is; where they
/// are, it comes back after the code of the colour and before a reset code,
/// with the code of the colour again after each reset code that the text
/// holds. Either way characters are only added: the result holds the
/// characters of the text in their order, which is all that is claimed.
#[verifier::external_body]
fn on_green(text: &str) -> (r: String)
    ensures
        holds_in_order(r@, text@),
{
    text.on_green().to_string()
}

/// Gives the text a blue background with `colored::Colorize::on_blue` and
/// renders it. Whether colour codes are written depends on the environment
/// of the process. Where none are, the text comes back as it is; where they
/// are, it comes back after the code of the colour and before a reset code,
/// with the code of the colour again after each reset code that the text
/// holds. Either way characters are only added: the result holds the
/// characters of the text in their order, which is all that is claimed.
#[verifier::external_body]
fn on_blue(text: &str) -> (r: String)
    ensures
        holds_in_order(r@, text@),
{
    text.on_blue().to_string()
}

/// Colours the text white with `colored::Colorize::white` and renders it.
/// Whether colour codes are written depends on the environment of the
/// process. Where none are, the text comes back as it is; where they are, it
/// comes back after the code of the colour and before a reset code, with the
/// code of the colour again after each reset code that the text holds. Either
/// way characters are only added: the result holds the characters of the text
/// in their order, which is all that is claimed.
#[verifier::external_body]
fn white(text: &str) -> (r: String)
    ensures
        holds_in_order(r@, text@),
{
    text.white().to_string()
}

/// Colours the text black with `colored::Colorize::black` and renders it.
/// Whether colour codes are written depends on the environment of the
/// process. Where none are, the text comes back as it is; where they are, it
/// comes back after the code of the colour and before a reset code, with the
/// code of the colour again after each reset code that the text holds. Either
/// way characters are only added: the result holds the characters of the text
/// in their order, which is all that is claimed.
#[verifier::external_body]
fn black(text: &str) -> (r: String)
    ensures
        holds_in_order(r@, text@),
{
    text.black().to_string()
}

/// What a cell shows: the shade of its square, and the piece on it.
#[derive(Clone, Copy, Debug, PartialEq, Eq)]
pub struct CellContent {
    pub shade: SquareColor,
    pub occupant: Option<(Piece, Color)>,
}

impl CellContent {
    /// The lower line of the cell without any colour: the symbol of the piece
    /// after one blank and before two, or four blanks where there is none.
    pub open spec fn line(&self) -> Seq<char> {
        match self.occupant {
            Some((piece, _)) => " "@ + piece.symbol() + "  "@,
            None => "    "@,
        }
    }
}

/// One of the two lines of a row: the upper or the lower lines of the eight
/// cells of a rank, from file A to file H, and a line end.
pub open spec fn row_line(cells: Seq<Cell>, rank: int, lower: bool, files: int) -> Seq<char>
    decreases files,
{
    if files <= 0 {
        "\n"@
    } else {
        let cell = cells[rank * 8 + 8 - files];
        (if lower {
            cell.lower@
        } else {
            cell.upper@
        }) + row_line(cells, rank, lower, files - 1)
    }
}

/// The rows of the first `ranks` ranks, the highest of them first; each row
/// is the line of the upper halves of its cells, then that of the lower ones.
pub open spec fn rows(cells: Seq<Cell>, ranks: int) -> Seq<char>
    decreases ranks,
{
    if ranks <= 0 {
        Seq::empty()
    } else {
        row_line(cells, ranks - 1, false, 8) + row_line(cells, ranks - 1, true, 8) + rows(
            cells,
            ranks - 1,
        )
    }
}

/// Lays the cells out in rows of eight, the last full row first. The cells
/// are taken in index order; cells beyond the last full row are left out.
pub fn layout(cells: &Vec<Cell>) -> (r: String)
    ensures
        r@ == rows(cells@, cells.len() as int / 8),
{
    let count: usize = cells.len() / 8;
    let mut result = String::new();
    let mut rank: usize = count;
    while rank > 0
        invariant
            rank <= count,
            count == cells.len() / 8,
            result@ + rows(cells@, rank as int) == rows(cells@, count as int),
        decreases rank,
    {
        rank -= 1;
        let ghost before = result@;
        let mut half: usize = 0;
        while half < 2
            invariant
                half <= 2,
                rank < count,
                count == cells.len() / 8,
                result@ == before + (if half >= 1 {
                    row_line(cells@, rank as int, false, 8)
                } else {
                    Seq::empty()
                }) + (if half >= 2 {
                    row_line(cells@, rank as int, true, 8)
                } else {
                    Seq::empty()
                }),
            decreases 2 - half,
        {
            let ghost start = result@;
            let mut file: usize = 0;
            while file < 8
                invariant
                    file <= 8,
                    rank < count,
                    half < 2,
                    count == cells.len() / 8,
                    result@ + row_line(cells@, rank as int, half == 1, 8 - file) == start
                        + row_line(cells@, rank as int, half == 1, 8),
                decreases 8 - file,
            {
                let cell = &cells[rank * 8 + file];
                let ghost now = result@;
                if half == 0 {
                    result.append(cell.upper.as_str());
                } else {
                    result.append(cell.lower.as_str());
                }
                proof {
                    let piece = if half == 1 {
                        cell.lower@
                    } else {
                        cell.upper@
                    };
                    assert(row_line(cells@, rank as int, half == 1, 8 - file) == piece + row_line(
                        cells@,
                        rank as int,
                        half == 1,
                        8 - file - 1,
                    ));
                    assert((now + piece) + row_line(cells@, rank as int, half == 1, 8 - file - 1)
                        =~= now + (piece + row_line(cells@, rank as int, half == 1, 8 - file - 1)));
                }
                file += 1;
            }
            result.append("\n");
            proof {
                assert(row_line(cells@, rank as int, half == 1, 0) == "\n"@);
                assert(result@ == start + row_line(cells@, rank as int, half == 1, 8));
                if half == 0 {
                    assert(result@ =~= before + row_line(cells@, rank as int, false, 8)
                        + Seq::<char>::empty());
                } else {
                    assert(result@ =~= before + row_line(cells@, rank as int, false, 8) + row_line(
                        cells@,
                        rank as int,
                        true,
                        8,
                    ));
                }
            }
            half += 1;
        }
        proof {
            let upper = row_line(cells@, rank as int, false, 8);
            let lower = row_line(cells@, rank as int, true, 8);
            assert(rows(cells@, rank + 1) == upper + lower + rows(cells@, rank as int));
            assert((before + upper + lower) + rows(cells@, rank as int) =~= before + (upper + lower
                + rows(cells@, rank as int)));
        }
    }
    proof {
        assert(result@ + rows(cells@, 0) =~= result@);
    }
    result
}

/// The text on the background that stands for a shade: green for the light
/// squares, blue for the dark ones. Whatever colour codes are written, the
/// result holds the characters of the text in their order.
fn shaded(text: &str, shade: SquareColor) -> (r: String)
    ensures
        holds_in_order(r@, text@),
{
    match shade {
        SquareColor::White => on_green(text),
        SquareColor::Black => on_blue(text),
    }
}

/// The line of a piece: its symbol after one blank and before two.
pub fn piece_line(symbol: &str) -> (r: String)
    ensures
        r@ == " "@ + symbol@ + "  "@,
{
    let mut line = String::from_str(" ");
    line.append(symbol);
    line.append("  ");
    line
}

/// Draws a cell: four blanks above; below them the line of the piece, its
/// symbol in the colour of its side, or four blanks where the square is
/// empty. Both lines stand on the shade of the square. Whatever colour codes
/// are written, the upper line holds its four blanks and the lower line the
/// characters of the uncoloured line, in their order.
pub fn draw(content: &CellContent) -> (r: Cell)
    ensures
        holds_in_order(r.upper@, "    "@),
        holds_in_order(r.lower@, content.line()),
{
    let middle = match content.occupant {
        Some((piece, color)) => {
            let symbol = match color {
                Color::White => white(piece.to_string()),
                Color::Black => black(piece.to_string()),
            };
            proof {
                lemma_holds_between(" "@, symbol@, piece.symbol(), "  "@);
            }
            piece_line(symbol.as_str())
        },
        None => String::from_str("    "),
    };
    let lower = shaded(middle.as_str(), content.shade);
    proof {
        if content.occupant is Some {
            lemma_holds_through(lower@, middle@, content.line());
        }
    }
    Cell { upper: shaded("    ", content.shade), lower }
}

impl Board {
    /// What the cell of a square shows.
    pub open spec fn spec_cell_content(&self, square: &Square) -> CellContent {
        CellContent { shade: square.color(), occupant: self.occupant(square) }
    }

    /// What the cell of a square shows: the shade of the square, and the kind
    /// and colour of the piece on it, if any.
    #[verifier::when_used_as_spec(spec_cell_content)]
    pub fn cell_content(&self, square: &Square) -> (r: CellContent)
        ensures
            r == self.spec_cell_content(square),
    {
        CellContent { shade: square.color(), occupant: self.occupant(square) }
    }

    /// The position drawn for a terminal: the drawn cells of the 64 squares,
    /// laid out in eight rows with the eighth rank at the top.
    pub fn board_string(&self) -> (r: String)
        ensures
            exists|cells: Seq<Cell>| cells.len() == 64 && r@ == rows(cells, 8),
    {
        let mut cells: Vec<Cell> = Vec::new();
        let mut i: usize = 0;
        while i < 64
            invariant
                i <= 64,
                cells.len() == i,
            decreases 64 - i,
        {
            let content = self.cell_content(&SQUARES[i]);
            cells.push(draw(&content));
            i += 1;
        }
        layout(&cells)
    }
}

} // verus!
