//! Prints text art as a gray picture: every character becomes a 5x5 block
//! of white pixels, in which the digits 3 and 7 are inked in black.
use vstd::prelude::*;
use vstd::arithmetic::div_mod::lemma_fundamental_div_mod_converse;
use crate::grid::{lemma_cell_index, lemma_next_row};
use crate::pattern::{digit_of_byte, lemma_stamps_differ, stamp_bit, stamp_on, Digit, SEVEN, THREE};

verus! {

/// The gray level of ink.
pub const INK: u8 = 0;

/// The gray level of paper.
pub const PAPER: u8 = 255;

/// The gray level of pixel (`row`, `col`) of the print of `text`, laid out
/// in lines of `tw` bytes: ink where the byte under it is a digit whose
/// stamp is inked at the pixel's place in its block, paper elsewhere.
pub open spec fn stamp_pixel(text: Seq<u8>, tw: int, row: int, col: int) -> u8 {
    match digit_of_byte(text[(row / 5) * tw + col / 5]) {
        Some(d) => if stamp_on(d, row % 5, col % 5) {
            INK
        } else {
            PAPER
        },
        None => PAPER,
    }
}

/// The print of `text`, `tw` bytes by `th` lines, as `5 * th` rows of
/// `5 * tw` gray pixels, row after row.
pub open spec fn stamp_image(text: Seq<u8>, tw: int, th: int) -> Seq<u8> {
    Seq::new(
        ((5 * th) * (5 * tw)) as nat,
        |i: int| stamp_pixel(text, tw, i / (5 * tw), i % (5 * tw)),
    )
}

/// The print has two tones only: every pixel is ink or paper.
pub proof fn lemma_print_two_tones(text: Seq<u8>, tw: int, row: int, col: int)
    ensures
        stamp_pixel(text, tw, row, col) == INK || stamp_pixel(text, tw, row, col) == PAPER,
{
}

/// Byte `(r, c)` of the text becomes the 5x5 block of pixels from row
/// `5 * r` and column `5 * c`: the stamp of its digit in ink on paper when it
/// is a 3 or a 7, plain paper otherwise.
pub proof fn lemma_print_block(text: Seq<u8>, tw: int, r: int, c: int, dy: int, dx: int)
    requires
        0 <= r,
        0 <= c < tw,
        0 <= dy < 5,
        0 <= dx < 5,
    ensures
        stamp_pixel(text, tw, 5 * r + dy, 5 * c + dx) == match digit_of_byte(text[r * tw + c]) {
            Some(d) => if stamp_on(d, dy, dx) {
                INK
            } else {
                PAPER
            },
            None => PAPER,
        },
{
    lemma_fundamental_div_mod_converse(5 * r + dy, 5, r, dy);
    lemma_fundamental_div_mod_converse(5 * c + dx, 5, c, dx);
}

/// The print can be read back: two pixels of each block tell whether the
/// byte under it is a 3, a 7 or neither.
pub proof fn lemma_print_readable(text: Seq<u8>, tw: int, r: int, c: int)
    requires
        0 <= r,
        0 <= c < tw,
    ensures
        (text[r * tw + c] == THREE) == (stamp_pixel(text, tw, 5 * r + 2, 5 * c) == INK),
        (text[r * tw + c] == SEVEN) == (stamp_pixel(text, tw, 5 * r, 5 * c) == INK
            && stamp_pixel(text, tw, 5 * r + 2, 5 * c) == PAPER),
        (text[r * tw + c] != THREE && text[r * tw + c] != SEVEN) == (stamp_pixel(
            text,
            tw,
            5 * r,
            5 * c,
        ) == PAPER),
{
    lemma_print_block(text, tw, r, c, 0, 0);
    lemma_print_block(text, tw, r, c, 2, 0);
    lemma_stamps_differ();
}

/// Row `row` of the print of `text`, laid out in lines of `tw` bytes:
/// `5 * tw` gray pixels.
pub open spec fn stamp_row(text: Seq<u8>, tw: int, row: int) -> Seq<u8> {
    Seq::new((5 * tw) as nat, |col: int| stamp_pixel(text, tw, row, col))
}

/// Prints row `row` of the picture of `text`, held as `text_height` lines of
/// `text_width` bytes.
pub fn render_stamp_row(text: &Vec<u8>, text_width: usize, text_height: usize, row: usize) -> (line: Vec<u8>)
    requires
        text_width > 0,
        text.len() == text_width * text_height,
        5 * text_width <= usize::MAX,
        row < 5 * text_height,
    ensures
        line@ == stamp_row(text@, text_width as int, row as int),
{
    let tw = text_width;
    let th = text_height;
    let pw: usize = 5 * tw;
    let ghost lt = text@;
    let rowy = row / 5;
    let maty = row % 5;
    let mut line: Vec<u8> = Vec::new();
    let mut x: usize = 0;
    while x < pw
        invariant
            lt == text@,
            tw > 0,
            text.len() == tw * th,
            pw == 5 * tw,
            row < 5 * th,
            rowy == row / 5,
            maty == row % 5,
            x <= pw,
            line.len() == x,
            forall|c: int|
                0 <= c < line.len() ==> #[trigger] line@[c] == stamp_pixel(lt, tw as int, row as int, c),
        decreases pw - x,
    {
        let pixel = x / 5;
        let matx = x % 5;
        proof {
            assert(rowy < th);
            assert(pixel < tw);
            assert((th as int) * (tw as int) == (tw as int) * (th as int)) by (nonlinear_arith);
            lemma_cell_index(rowy as int, pixel as int, tw as int, th as int);
        }
        let cords = rowy * tw + pixel;
        let ch = text[cords];
        let value: u8 = if ch == THREE {
            if stamp_bit(Digit::Three, maty, matx) == 1 {
                INK
            } else {
                PAPER
            }
        } else if ch == SEVEN {
            if stamp_bit(Digit::Seven, maty, matx) == 1 {
                INK
            } else {
                PAPER
            }
        } else {
            PAPER
        };
        let ghost before = line@;
        line.push(value);
        assert forall|c: int| 0 <= c < line.len() implies #[trigger] line@[c] == stamp_pixel(
            lt,
            tw as int,
            row as int,
            c,
        ) by {
            if c < before.len() {
                assert(line@[c] == before[c]);
            }
        }
        x = x + 1;
    }
    assert(line@ =~= stamp_row(lt, tw as int, row as int));
    line
}

/// Prints `text`, held as `text_height` lines of `text_width` bytes, as a
/// gray picture five times as wide and five times as high.
pub fn render_stamps(text: &Vec<u8>, text_width: usize, text_height: usize) -> (pixels: Vec<u8>)
    requires
        text_width > 0,
        text.len() == text_width * text_height,
        (5 * text_height) * (5 * text_width) <= usize::MAX,
    ensures
        pixels@ == stamp_image(text@, text_width as int, text_height as int),
{
    let tw = text_width;
    let th = text_height;
    proof {
        assert(th == 0 ==> (5 * th) * (5 * tw) == 0) by (nonlinear_arith);
        assert(th > 0 ==> 5 * tw <= (5 * th) * (5 * tw) && 5 * th <= (5 * th) * (5 * tw))
            by (nonlinear_arith)
            requires
                tw > 0,
        ;
    }
    let ghost lt = text@;
    let mut pixels: Vec<u8> = Vec::new();
    if th == 0 {
        assert(pixels@ =~= stamp_image(lt, tw as int, th as int));
        return pixels;
    }
    let pw: usize = 5 * tw;
    let ph: usize = 5 * th;
    let mut y: usize = 0;
    while y < ph
        invariant
            lt == text@,
            tw > 0,
            th > 0,
            text.len() == tw * th,
            pw == 5 * tw,
            ph == 5 * th,
            y <= ph,
            pixels.len() == y * pw,
            forall|i: int|
                0 <= i < pixels.len() ==> #[trigger] pixels@[i] == stamp_pixel(lt, tw as int, i / (pw as int), i % (pw as int)),
        decreases ph - y,
    {
        let mut line = render_stamp_row(text, tw, th, y);
        let ghost before = pixels@;
        let ghost lline = line@;
        pixels.append(&mut line);
        assert forall|i: int| 0 <= i < pixels.len() implies #[trigger] pixels@[i] == stamp_pixel(
            lt,
            tw as int,
            i / (pw as int),
            i % (pw as int),
        ) by {
            if i < before.len() {
                assert(pixels@[i] == before[i]);
            } else {
                let x = i - before.len();
                assert(pixels@[i] == lline[x]);
                lemma_cell_index(y as int, x, pw as int, ph as int);
            }
        }
        proof {
            lemma_next_row(y as int, pw as int);
        }
        y = y + 1;
    }
    assert(pixels@ =~= stamp_image(lt, tw as int, th as int));
    pixels
}

/// What byte `b` prints at place `(dy, dx)` of its 5x5 block: ink where `b`
/// is a 3 and the stamp of 3 is inked there, or `b` is a 7 and the stamp of 7
/// is inked there; paper everywhere else.
pub open spec fn printed(b: u8, dy: int, dx: int) -> u8 {
    if (b == THREE && stamp_on(Digit::Three, dy, dx)) || (b == SEVEN && stamp_on(
        Digit::Seven,
        dy,
        dx,
    )) {
        INK
    } else {
        PAPER
    }
}

/// Where byte `(r, c)` of the text lands in row `5 * r + dy` of the print:
/// at columns `5 * c` to `5 * c + 4`, as row `dy` of its stamp, not mirrored
/// or shifted.
pub proof fn lemma_stamp_row_layout(text: Seq<u8>, tw: int, r: int, c: int, dy: int, dx: int)
    requires
        0 <= r,
        0 <= c < tw,
        0 <= dy < 5,
        0 <= dx < 5,
    ensures
        stamp_row(text, tw, 5 * r + dy).len() == 5 * tw,
        stamp_row(text, tw, 5 * r + dy)[5 * c + dx] == printed(text[r * tw + c], dy, dx),
{
    lemma_print_block(text, tw, r, c, dy, dx);
}

/// Where byte `(r, c)` of a text of `th` lines of `tw` bytes lands in its
/// print: the 5x5 block at rows `5 * r` to `5 * r + 4` and columns `5 * c` to
/// `5 * c + 4`, in a picture `5 * tw` pixels wide.
pub proof fn lemma_stamp_image_layout(
    text: Seq<u8>,
    tw: int,
    th: int,
    r: int,
    c: int,
    dy: int,
    dx: int,
)
    requires
        0 <= r < th,
        0 <= c < tw,
        0 <= dy < 5,
        0 <= dx < 5,
    ensures
        stamp_image(text, tw, th).len() == (5 * th) * (5 * tw),
        0 <= (5 * r + dy) * (5 * tw) + 5 * c + dx < stamp_image(text, tw, th).len(),
        stamp_image(text, tw, th)[(5 * r + dy) * (5 * tw) + 5 * c + dx] == printed(
            text[r * tw + c],
            dy,
            dx,
        ),
{
    lemma_cell_index(5 * r + dy, 5 * c + dx, 5 * tw, 5 * th);
    lemma_print_block(text, tw, r, c, dy, dx);
}

} // verus!
