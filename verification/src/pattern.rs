//! The fixed patterns of the art: the 3x3 masks that turn a brightness band
//! into marked cells, and the 5x5 stamps that draw the digits 3 and 7.
use vstd::prelude::*;

verus! {

/// The byte of the digit 3 in text output.
pub const THREE: u8 = 51;

/// The byte of the digit 7 in text output.
pub const SEVEN: u8 = 55;

/// The byte of an unmarked cell in text output.
pub const BLANK: u8 = 32;

/// The byte that ends a line of text output.
pub const NEWLINE: u8 = 10;

/// The four brightness bands of a gray level, darkest first.
#[derive(Clone, Copy, Debug, PartialEq, Eq, Structural)]
pub enum Shade {
    /// Levels 0 to 63.
    Dark,
    /// Levels 64 to 127.
    Gray,
    /// Levels 128 to 191.
    Light,
    /// Levels 192 to 255.
    White,
}

/// The two digits that the art is drawn with.
#[derive(Clone, Copy, Debug, PartialEq, Eq, Structural)]
pub enum Digit {
    Three,
    Seven,
}

/// The band that a gray level falls in.
pub open spec fn shade_of(luma: u8) -> Shade {
    if luma < 64 {
        Shade::Dark
    } else if luma < 128 {
        Shade::Gray
    } else if luma < 192 {
        Shade::Light
    } else {
        Shade::White
    }
}

/// The 3x3 mask of each band, row by row: a 1 marks a cell that receives a digit.
pub open spec fn mask_rows(s: Shade) -> Seq<Seq<u8>> {
    match s {
        Shade::Dark => seq![seq![1u8, 1, 1], seq![1u8, 1, 1], seq![1u8, 1, 1]],
        Shade::Gray => seq![seq![0u8, 1, 0], seq![1u8, 1, 1], seq![0u8, 1, 0]],
        Shade::Light => seq![seq![0u8, 0, 0], seq![0u8, 1, 0], seq![0u8, 0, 0]],
        Shade::White => seq![seq![0u8, 0, 0], seq![0u8, 0, 0], seq![0u8, 0, 0]],
    }
}

/// Whether cell (`row`, `col`) of the mask of band `s` is marked.
pub open spec fn mask_on(s: Shade, row: int, col: int) -> bool {
    mask_rows(s)[row][col] == 1
}

/// The 5x5 stamp of each digit, row by row: a 1 is an inked cell.
pub open spec fn stamp_rows(d: Digit) -> Seq<Seq<u8>> {
    match d {
        Digit::Three => seq![
            seq![1u8, 1, 1, 1, 1],
            seq![0u8, 0, 0, 0, 1],
            seq![1u8, 1, 1, 1, 1],
            seq![0u8, 0, 0, 0, 1],
            seq![1u8, 1, 1, 1, 1],
        ],
        Digit::Seven => seq![
            seq![1u8, 1, 1, 1, 1],
            seq![0u8, 0, 0, 0, 1],
            seq![0u8, 0, 0, 1, 0],
            seq![0u8, 0, 1, 0, 0],
            seq![0u8, 1, 0, 0, 0],
        ],
    }
}

/// Whether cell (`row`, `col`) of the stamp of digit `d` is inked.
pub open spec fn stamp_on(d: Digit, row: int, col: int) -> bool {
    stamp_rows(d)[row][col] == 1
}

/// The digit whose byte is `b`, if it is one of the two.
pub open spec fn digit_of_byte(b: u8) -> Option<Digit> {
    if b == THREE {
        Some(Digit::Three)
    } else if b == SEVEN {
        Some(Digit::Seven)
    } else {
        None
    }
}

/// The band of a gray level.
pub fn shade(luma: u8) -> (s: Shade)
    ensures
        s == shade_of(luma),
{
    if luma < 64 {
        Shade::Dark
    } else if luma < 128 {
        Shade::Gray
    } else if luma < 192 {
        Shade::Light
    } else {
        Shade::White
    }
}

/// The entry of the mask of band `s` at (`row`, `col`).
pub fn mask_bit(s: Shade, row: usize, col: usize) -> (b: u8)
    requires
        row < 3,
        col < 3,
    ensures
        b == mask_rows(s)[row as int][col as int],
{
    let rows: [[u8; 3]; 3] = match s {
        Shade::Dark => [[1, 1, 1], [1, 1, 1], [1, 1, 1]],
        Shade::Gray => [[0, 1, 0], [1, 1, 1], [0, 1, 0]],
        Shade::Light => [[0, 0, 0], [0, 1, 0], [0, 0, 0]],
        Shade::White => [[0, 0, 0], [0, 0, 0], [0, 0, 0]],
    };
    rows[row][col]
}

/// The entry of the stamp of digit `d` at (`row`, `col`).
pub fn stamp_bit(d: Digit, row: usize, col: usize) -> (b: u8)
    requires
        row < 5,
        col < 5,
    ensures
        b == stamp_rows(d)[row as int][col as int],
{
    let rows: [[u8; 5]; 5] = match d {
        Digit::Three => [
            [1, 1, 1, 1, 1],
            [0, 0, 0, 0, 1],
            [1, 1, 1, 1, 1],
            [0, 0, 0, 0, 1],
            [1, 1, 1, 1, 1],
        ],
        Digit::Seven => [
            [1, 1, 1, 1, 1],
            [0, 0, 0, 0, 1],
            [0, 0, 0, 1, 0],
            [0, 0, 1, 0, 0],
            [0, 1, 0, 0, 0],
        ],
    };
    rows[row][col]
}

/// A darker gray level marks every cell that a lighter one marks: the masks
/// of the bands, from dark to white, are nested.
pub proof fn lemma_darker_marks_more(darker: u8, lighter: u8, row: int, col: int)
    requires
        darker <= lighter,
        0 <= row < 3,
        0 <= col < 3,
        mask_on(shade_of(lighter), row, col),
    ensures
        mask_on(shade_of(darker), row, col),
{
}

/// The marked cells of each band: all nine for dark, the middle row and
/// column for gray, the centre alone for light, none for white.
pub proof fn lemma_mask_shapes(s: Shade, row: int, col: int)
    requires
        0 <= row < 3,
        0 <= col < 3,
    ensures
        mask_on(s, row, col) == match s {
            Shade::Dark => true,
            Shade::Gray => row == 1 || col == 1,
            Shade::Light => row == 1 && col == 1,
            Shade::White => false,
        },
{
}

/// The stamps of 3 and 7 share their top two rows and differ at the left
/// end of the middle row, where 3 is inked and 7 is not.
pub proof fn lemma_stamps_differ()
    ensures
        stamp_on(Digit::Three, 2, 0),
        !stamp_on(Digit::Seven, 2, 0),
        stamp_on(Digit::Three, 0, 0),
        stamp_on(Digit::Seven, 0, 0),
{
}

} // verus!
