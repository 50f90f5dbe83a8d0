//! The glyph table: one five-row bitmap for each letter and for the space.

use vstd::prelude::*;

verus! {

/// Number of rows of every glyph.
pub const GLYPH_ROWS: u32 = 5;

/// Widest glyph that the bit encoding can hold.
pub const MAX_GLYPH_WIDTH: u32 = 6;

// The bitmaps. One group of binary digits per row, top row first; within a
// row the leftmost cell comes first, and 1 is a filled cell.

pub const A: u32 = 0b0110_1001_1111_1001_1001;

pub const B: u32 = 0b1110_1001_1110_1001_1110;

pub const C: u32 = 0b0111_1000_1000_1000_0111;

pub const D: u32 = 0b1110_1001_1001_1001_1110;

pub const E: u32 = 0b1111_1000_1110_1000_1111;

pub const F: u32 = 0b1111_1000_1110_1000_1000;

pub const G: u32 = 0b0111_1000_1011_1001_0111;

pub const H: u32 = 0b1001_1001_1111_1001_1001;

pub const I: u32 = 0b111_010_010_010_111;

pub const J: u32 = 0b0011_0001_0001_1001_0110;

pub const K: u32 = 0b1001_1010_1100_1010_1001;

pub const L: u32 = 0b1000_1000_1000_1000_1111;

pub const M: u32 = 0b10001_11011_10101_10001_10001;

pub const N: u32 = 0b10001_11001_10101_10011_10001;

pub const O: u32 = 0b0110_1001_1001_1001_0110;

pub const P: u32 = 0b1110_1001_1110_1000_1000;

pub const Q: u32 = 0b01110_10001_10101_10010_01101;

pub const R: u32 = 0b1110_1001_1110_1010_1001;

pub const S: u32 = 0b0111_1000_0110_0001_1110;

pub const T: u32 = 0b11111_00100_00100_00100_00100;

pub const U: u32 = 0b1001_1001_1001_1001_0110;

pub const V: u32 = 0b10001_10001_10001_01010_00100;

pub const W: u32 = 0b10001_10001_10101_11011_10001;

pub const X: u32 = 0b10001_01010_00100_01010_10001;

pub const Y: u32 = 0b10001_01010_00100_00100_00100;

pub const Z: u32 = 0b11111_00010_00100_01000_11111;

pub const SPACE: u32 = 0b00_00_00_00_00;

/// A bitmap of five rows and `width` columns.
///
/// The cells are stored row by row in the low `5 * width` bits of `bits`, the
/// top-left cell in the highest of them, so that a binary literal with one
/// group of digits per row reads like the shape it draws.
#[derive(Clone, Copy, Debug)]
pub struct Glyph {
    /// Number of columns.
    pub width: u32,
    /// The cells, one bit each.
    pub bits: u32,
}

impl Glyph {
    /// The width is one that the encoding can hold.
    pub open spec fn wf(&self) -> bool {
        1 <= self.width <= MAX_GLYPH_WIDTH
    }

    /// Whether the cell in row `row` and column `col` is filled.
    pub open spec fn filled(&self, row: int, col: int) -> bool {
        (self.bits >> ((GLYPH_ROWS * self.width - 1 - (row * self.width + col)) as u32)) & 1 == 1
    }

    /// Row `row` of the bitmap, left to right.
    pub open spec fn row(&self, row: int) -> Seq<bool> {
        Seq::new(self.width as nat, |col: int| self.filled(row, col))
    }

    /// Reads one cell.
    pub fn is_filled(&self, row: u32, col: u32) -> (b: bool)
        requires
            self.wf(),
            row < GLYPH_ROWS,
            col < self.width,
        ensures
            b == self.filled(row as int, col as int),
    {
        assert(row * self.width <= 4 * self.width) by (nonlinear_arith)
            requires
                row <= 4,
        ;
        let shift: u32 = GLYPH_ROWS * self.width - 1 - (row * self.width + col);
        (self.bits >> shift) & 1 == 1
    }

    /// The cells of one row, left to right.
    pub fn pattern(&self, row: u32) -> (cells: Vec<bool>)
        requires
            self.wf(),
            row < GLYPH_ROWS,
        ensures
            cells@ == self.row(row as int),
            cells@ == self@[row as int],
    {
        let mut cells: Vec<bool> = Vec::new();
        let mut col: u32 = 0;
        while col < self.width
            invariant
                self.wf(),
                row < GLYPH_ROWS,
                col <= self.width,
                cells@.len() == col,
                forall|k: int| 0 <= k < col ==> cells@[k] == self.filled(row as int, k),
            decreases self.width - col,
        {
            cells.push(self.is_filled(row, col));
            col += 1;
        }
        assert(cells@ =~= self.row(row as int));
        cells
    }
}

impl View for Glyph {
    type V = Seq<Seq<bool>>;

    /// The bitmap as five rows of cells.
    open spec fn view(&self) -> Seq<Seq<bool>> {
        Seq::new(GLYPH_ROWS as nat, |row: int| self.row(row))
    }
}

/// The characters that have a glyph: the Latin letters in either case, and
/// the space.
pub open spec fn is_supported(c: char) -> bool {
    ('A' <= c && c <= 'Z') || ('a' <= c && c <= 'z') || c == ' '
}

/// The table itself. A lower-case letter has the glyph of its capital.
pub open spec fn glyph_of(c: char) -> Option<Glyph> {
    match c {
        'A' | 'a' => Some(Glyph { width: 4, bits: A }),
        'B' | 'b' => Some(Glyph { width: 4, bits: B }),
        'C' | 'c' => Some(Glyph { width: 4, bits: C }),
        'D' | 'd' => Some(Glyph { width: 4, bits: D }),
        'E' | 'e' => Some(Glyph { width: 4, bits: E }),
        'F' | 'f' => Some(Glyph { width: 4, bits: F }),
        'G' | 'g' => Some(Glyph { width: 4, bits: G }),
        'H' | 'h' => Some(Glyph { width: 4, bits: H }),
        'I' | 'i' => Some(Glyph { width: 3, bits: I }),
        'J' | 'j' => Some(Glyph { width: 4, bits: J }),
        'K' | 'k' => Some(Glyph { width: 4, bits: K }),
        'L' | 'l' => Some(Glyph { width: 4, bits: L }),
        'M' | 'm' => Some(Glyph { width: 5, bits: M }),
        'N' | 'n' => Some(Glyph { width: 5, bits: N }),
        'O' | 'o' => Some(Glyph { width: 4, bits: O }),
        'P' | 'p' => Some(Glyph { width: 4, bits: P }),
        'Q' | 'q' => Some(Glyph { width: 5, bits: Q }),
        'R' | 'r' => Some(Glyph { width: 4, bits: R }),
        'S' | 's' => Some(Glyph { width: 4, bits: S }),
        'T' | 't' => Some(Glyph { width: 5, bits: T }),
        'U' | 'u' => Some(Glyph { width: 4, bits: U }),
        'V' | 'v' => Some(Glyph { width: 5, bits: V }),
        'W' | 'w' => Some(Glyph { width: 5, bits: W }),
        'X' | 'x' => Some(Glyph { width: 5, bits: X }),
        'Y' | 'y' => Some(Glyph { width: 5, bits: Y }),
        'Z' | 'z' => Some(Glyph { width: 5, bits: Z }),
        ' ' => Some(Glyph { width: 2, bits: SPACE }),
        _ => None,
    }
}

/// Looks a character up in the table.
pub fn lookup(c: char) -> (g: Option<Glyph>)
    ensures
        g == glyph_of(c),
        g is Some <==> is_supported(c),
        g is Some ==> g.unwrap().wf(),
{
    match c {
        'A' | 'a' => Some(Glyph { width: 4, bits: A }),
        'B' | 'b' => Some(Glyph { width: 4, bits: B }),
        'C' | 'c' => Some(Glyph { width: 4, bits: C }),
        'D' | 'd' => Some(Glyph { width: 4, bits: D }),
        'E' | 'e' => Some(Glyph { width: 4, bits: E }),
        'F' | 'f' => Some(Glyph { width: 4, bits: F }),
        'G' | 'g' => Some(Glyph { width: 4, bits: G }),
        'H' | 'h' => Some(Glyph { width: 4, bits: H }),
        'I' | 'i' => Some(Glyph { width: 3, bits: I }),
        'J' | 'j' => Some(Glyph { width: 4, bits: J }),
        'K' | 'k' => Some(Glyph { width: 4, bits: K }),
        'L' | 'l' => Some(Glyph { width: 4, bits: L }),
        'M' | 'm' => Some(Glyph { width: 5, bits: M }),
        'N' | 'n' => Some(Glyph { width: 5, bits: N }),
        'O' | 'o' => Some(Glyph { width: 4, bits: O }),
        'P' | 'p' => Some(Glyph { width: 4, bits: P }),
        'Q' | 'q' => Some(Glyph { width: 5, bits: Q }),
        'R' | 'r' => Some(Glyph { width: 4, bits: R }),
        'S' | 's' => Some(Glyph { width: 4, bits: S }),
        'T' | 't' => Some(Glyph { width: 5, bits: T }),
        'U' | 'u' => Some(Glyph { width: 4, bits: U }),
        'V' | 'v' => Some(Glyph { width: 5, bits: V }),
        'W' | 'w' => Some(Glyph { width: 5, bits: W }),
        'X' | 'x' => Some(Glyph { width: 5, bits: X }),
        'Y' | 'y' => Some(Glyph { width: 5, bits: Y }),
        'Z' | 'z' => Some(Glyph { width: 5, bits: Z }),
        ' ' => Some(Glyph { width: 2, bits: SPACE }),
        _ => None,
    }
}

/// Every supported character has a glyph of five rows, and all five have the
/// glyph's width; no other character has a glyph.
pub proof fn lemma_glyph_shape(c: char)
    ensures
        glyph_of(c) is Some <==> is_supported(c),
        glyph_of(c) matches Some(g) ==> {
            &&& g.wf()
            &&& g@.len() == 5
            &&& forall|row: int| 0 <= row < 5 ==> (#[trigger] g@[row]).len() == g.width
        },
{
}

/// The glyph of the space is blank: none of its cells is filled.
pub proof fn lemma_space_is_blank(row: int, col: int)
    ensures
        glyph_of(' ') matches Some(g) && !g.filled(row, col),
{
    let shift = (GLYPH_ROWS * 2 - 1 - (row * 2 + col)) as u32;
    assert((0u32 >> shift) & 1 == 0) by (bit_vector);
}

/// Upper and lower case of a letter share one glyph.
pub proof fn lemma_case_insensitive(upper: char, lower: char)
    requires
        'A' <= upper && upper <= 'Z',
        lower as u32 == upper as u32 + 32,
    ensures
        glyph_of(lower) == glyph_of(upper),
{
}

} // verus!
