//! The classic text art: each pixel of a gray image becomes a 3x3 block of
//! characters, marked by the mask of its brightness band, and the marked
//! cells of each line are written with 3 and 7 in turn.
use vstd::prelude::*;
use vstd::arithmetic::div_mod::lemma_fundamental_div_mod_converse;
use crate::grid::{lemma_cell_index, lemma_next_row};
use crate::pattern::{
    mask_bit, mask_on, shade, shade_of, BLANK, NEWLINE, SEVEN, THREE,
};

verus! {

/// The number of bytes in one line of the text art of an image `w` pixels
/// wide: three cells per pixel and the line break.
pub open spec fn text_width(w: int) -> int {
    3 * w + 1
}

/// The number of lines of the text art of an image `h` pixels high.
pub open spec fn text_height(h: int) -> int {
    3 * h
}

/// Whether cell (`row`, `col`) of the text art of the gray image `luma`,
/// `w` pixels wide, is marked: it lies left of the line break, and the mask
/// of the band of the pixel under it is marked at the cell's place in its block.
pub open spec fn cell_marked(luma: Seq<u8>, w: int, row: int, col: int) -> bool {
    &&& 0 <= col < 3 * w
    &&& mask_on(shade_of(luma[(row / 3) * w + col / 3]), row % 3, col % 3)
}

/// The number of marked cells left of column `col` in line `row`.
pub open spec fn marks_before(luma: Seq<u8>, w: int, row: int, col: int) -> nat
    decreases col,
{
    if col <= 0 {
        0
    } else {
        marks_before(luma, w, row, col - 1) + if cell_marked(luma, w, row, col - 1) {
            1nat
        } else {
            0nat
        }
    }
}

/// The byte at cell (`row`, `col`) of the text art: the line break at the
/// end of each line; at a marked cell 3 when an even number of marked cells
/// precede it in its line, 7 when an odd number does; a blank elsewhere.
pub open spec fn text_cell(luma: Seq<u8>, w: int, row: int, col: int) -> u8 {
    if col == 3 * w {
        NEWLINE
    } else if cell_marked(luma, w, row, col) {
        if marks_before(luma, w, row, col) % 2 == 0 {
            THREE
        } else {
            SEVEN
        }
    } else {
        BLANK
    }
}

/// The whole text art of the gray image `luma`, `w` by `h` pixels, line after line.
pub open spec fn text_art(luma: Seq<u8>, w: int, h: int) -> Seq<u8> {
    Seq::new(
        (text_height(h) * text_width(w)) as nat,
        |i: int| text_cell(luma, w, i / text_width(w), i % text_width(w)),
    )
}

/// Without marked cells in columns `a` to `b - 1`, as many marked cells
/// precede column `b` as precede column `a`.
proof fn lemma_marks_flat(luma: Seq<u8>, w: int, row: int, a: int, b: int)
    requires
        0 <= a <= b,
        forall|c: int| a <= c < b ==> !#[trigger] cell_marked(luma, w, row, c),
    ensures
        marks_before(luma, w, row, b) == marks_before(luma, w, row, a),
    decreases b - a,
{
    if b > a {
        lemma_marks_flat(luma, w, row, a, b - 1);
        assert(!cell_marked(luma, w, row, b - 1));
    }
}

/// Every byte of the text art is a 3, a 7, a blank or a line break; the line
/// break stands exactly at the end of each line, and a cell holds a digit
/// exactly when it is marked.
pub proof fn lemma_text_alphabet(luma: Seq<u8>, w: int, row: int, col: int)
    requires
        0 <= w,
        0 <= col <= 3 * w,
    ensures
        text_cell(luma, w, row, col) == THREE || text_cell(luma, w, row, col) == SEVEN
            || text_cell(luma, w, row, col) == BLANK || text_cell(luma, w, row, col) == NEWLINE,
        (text_cell(luma, w, row, col) == NEWLINE) == (col == 3 * w),
        (text_cell(luma, w, row, col) == THREE || text_cell(luma, w, row, col) == SEVEN)
            == cell_marked(luma, w, row, col),
{
}

/// The first digit of every line is a 3.
pub proof fn lemma_line_starts_with_three(luma: Seq<u8>, w: int, row: int, col: int)
    requires
        0 <= col,
        cell_marked(luma, w, row, col),
        forall|c: int| 0 <= c < col ==> !#[trigger] cell_marked(luma, w, row, c),
    ensures
        text_cell(luma, w, row, col) == THREE,
{
    lemma_marks_flat(luma, w, row, 0, col);
}

/// Along a line the digits alternate: the next digit after a 3 is a 7, and
/// the next digit after a 7 is a 3.
pub proof fn lemma_digits_alternate(luma: Seq<u8>, w: int, row: int, c1: int, c2: int)
    requires
        0 <= c1 < c2,
        cell_marked(luma, w, row, c1),
        cell_marked(luma, w, row, c2),
        forall|c: int| c1 < c < c2 ==> !#[trigger] cell_marked(luma, w, row, c),
    ensures
        text_cell(luma, w, row, c1) == THREE ==> text_cell(luma, w, row, c2) == SEVEN,
        text_cell(luma, w, row, c1) == SEVEN ==> text_cell(luma, w, row, c2) == THREE,
{
    assert(marks_before(luma, w, row, c1 + 1) == marks_before(luma, w, row, c1) + 1);
    lemma_marks_flat(luma, w, row, c1 + 1, c2);
}

/// Pixel `(py, px)` of the image becomes the 3x3 block of cells from line
/// `3 * py` and column `3 * px`, and the block is marked exactly where the
/// mask of the pixel's band is.
pub proof fn lemma_block_follows_mask(luma: Seq<u8>, w: int, py: int, px: int, dy: int, dx: int)
    requires
        0 <= py,
        0 <= px < w,
        0 <= dy < 3,
        0 <= dx < 3,
    ensures
        cell_marked(luma, w, 3 * py + dy, 3 * px + dx) == mask_on(
            shade_of(luma[py * w + px]),
            dy,
            dx,
        ),
{
    lemma_fundamental_div_mod_converse(3 * py + dy, 3, py, dy);
    lemma_fundamental_div_mod_converse(3 * px + dx, 3, px, dx);
}

/// Line `row` of the text art of the gray image `luma`, `w` pixels wide:
/// `3 * w` cells and the line break.
pub open spec fn text_line(luma: Seq<u8>, w: int, row: int) -> Seq<u8> {
    Seq::new(text_width(w) as nat, |col: int| text_cell(luma, w, row, col))
}

/// Draws line `row` of the text art of a gray image of `width` by `height`
/// pixels, stored row by row in `luma`.
pub fn render_text_line(luma: &Vec<u8>, width: u32, height: u32, row: usize) -> (line: Vec<u8>)
    requires
        luma.len() == width * height,
        text_width(width as int) <= u32::MAX,
        row < text_height(height as int),
    ensures
        line@ == text_line(luma@, width as int, row as int),
{
    let w = width as usize;
    let tw: usize = 3 * w + 1;
    let ghost lw = luma@;
    let rowy = row / 3;
    let maty = row % 3;
    let mut cur: u8 = THREE;
    let mut line: Vec<u8> = Vec::new();
    let mut x: usize = 0;
    while x < tw - 1
        invariant
            lw == luma@,
            luma.len() == width * height,
            w == width,
            tw == text_width(w as int),
            row < text_height(height as int),
            rowy == row / 3,
            maty == row % 3,
            x <= tw - 1,
            line.len() == x,
            cur == (if marks_before(lw, w as int, row as int, x as int) % 2 == 0 {
                THREE
            } else {
                SEVEN
            }),
            forall|c: int|
                0 <= c < line.len() ==> #[trigger] line@[c] == text_cell(lw, w as int, row as int, c),
        decreases tw - 1 - x,
    {
        let pixel = x / 3;
        let matx = x % 3;
        proof {
            assert(rowy < height);
            assert(pixel < w);
            assert((height as int) * (w as int) == (w as int) * (height as int)) by (nonlinear_arith);
            lemma_cell_index(rowy as int, pixel as int, w as int, height as int);
        }
        let cords = rowy * w + pixel;
        let m = mask_bit(shade(luma[cords]), maty, matx);
        let ghost before = line@;
        if m == 1 {
            line.push(cur);
            cur = if cur == THREE { SEVEN } else { THREE };
        } else {
            line.push(BLANK);
        }
        assert forall|c: int| 0 <= c < line.len() implies #[trigger] line@[c] == text_cell(
            lw,
            w as int,
            row as int,
            c,
        ) by {
            if c < before.len() {
                assert(line@[c] == before[c]);
            }
        }
        x = x + 1;
    }
    line.push(NEWLINE);
    assert(line@ =~= text_line(lw, w as int, row as int));
    line
}

/// Draws the text art of a gray image of `width` by `height` pixels, stored
/// row by row in `luma`: `3 * height` lines of `3 * width` cells, each line
/// ended by a line break.
pub fn render_text(luma: &Vec<u8>, width: u32, height: u32) -> (text: Vec<u8>)
    requires
        luma.len() == width * height,
        text_width(width as int) <= u32::MAX,
        text_height(height as int) <= u32::MAX,
        text_height(height as int) * text_width(width as int) <= usize::MAX,
    ensures
        text@ == text_art(luma@, width as int, height as int),
{
    let w = width as usize;
    let tw: usize = 3 * w + 1;
    let th: usize = 3 * (height as usize);
    let ghost lw = luma@;
    let mut text: Vec<u8> = Vec::new();
    let mut y: usize = 0;
    while y < th
        invariant
            lw == luma@,
            luma.len() == width * height,
            text_width(width as int) <= u32::MAX,
            w == width,
            tw == text_width(w as int),
            th == text_height(height as int),
            y <= th,
            text.len() == y * tw,
            forall|i: int|
                0 <= i < text.len() ==> #[trigger] text@[i] == text_cell(lw, w as int, i / (tw as int), i % (tw as int)),
        decreases th - y,
    {
        let mut line = render_text_line(luma, width, height, y);
        let ghost before = text@;
        let ghost lline = line@;
        text.append(&mut line);
        assert forall|i: int| 0 <= i < text.len() implies #[trigger] text@[i] == text_cell(
            lw,
            w as int,
            i / (tw as int),
            i % (tw as int),
        ) by {
            if i < before.len() {
                assert(text@[i] == before[i]);
            } else {
                let x = i - before.len();
                assert(text@[i] == lline[x]);
                lemma_cell_index(y as int, x, tw as int, th as int);
            }
        }
        proof {
            lemma_next_row(y as int, tw as int);
        }
        y = y + 1;
    }
    assert(text@ =~= text_art(lw, w as int, height as int));
    text
}

/// Whether `b` is one of the two digits.
pub open spec fn is_digit_byte(b: u8) -> bool {
    b == THREE || b == SEVEN
}

/// Where pixel `(py, px)` lands in line `3 * py + dy`: the three cells from
/// column `3 * px` hold a digit exactly where the mask of the pixel's band is
/// marked, and a blank elsewhere; the line ends with the line break at column `3 * w`.
pub proof fn lemma_text_line_layout(luma: Seq<u8>, w: int, py: int, px: int, dy: int, dx: int)
    requires
        0 <= py,
        0 <= px < w,
        0 <= dy < 3,
        0 <= dx < 3,
    ensures
        text_line(luma, w, 3 * py + dy).len() == 3 * w + 1,
        is_digit_byte(text_line(luma, w, 3 * py + dy)[3 * px + dx]) == mask_on(
            shade_of(luma[py * w + px]),
            dy,
            dx,
        ),
        !is_digit_byte(text_line(luma, w, 3 * py + dy)[3 * px + dx]) ==> text_line(
            luma,
            w,
            3 * py + dy,
        )[3 * px + dx] == BLANK,
        text_line(luma, w, 3 * py + dy)[3 * w] == NEWLINE,
{
    lemma_block_follows_mask(luma, w, py, px, dy, dx);
    lemma_text_alphabet(luma, w, 3 * py + dy, 3 * px + dx);
}

/// Along each line of text the digits read 3, 7, 3, 7, ...: the first digit
/// of a line is a 3, and the next digit after any digit is the other one.
pub proof fn lemma_text_line_alternates(luma: Seq<u8>, w: int, row: int, c1: int, c2: int)
    requires
        0 <= w,
        0 <= c1 < c2 < 3 * w,
        is_digit_byte(text_line(luma, w, row)[c1]),
        is_digit_byte(text_line(luma, w, row)[c2]),
        forall|c: int| c1 < c < c2 ==> !is_digit_byte(#[trigger] text_line(luma, w, row)[c]),
    ensures
        text_line(luma, w, row)[c1] != text_line(luma, w, row)[c2],
        (forall|c: int| 0 <= c < c1 ==> !is_digit_byte(#[trigger] text_line(luma, w, row)[c]))
            ==> text_line(luma, w, row)[c1] == THREE,
{
    let l = text_line(luma, w, row);
    lemma_text_alphabet(luma, w, row, c1);
    lemma_text_alphabet(luma, w, row, c2);
    assert forall|c: int| c1 < c < c2 implies !#[trigger] cell_marked(luma, w, row, c) by {
        lemma_text_alphabet(luma, w, row, c);
        assert(!is_digit_byte(l[c]));
    }
    lemma_digits_alternate(luma, w, row, c1, c2);
    if forall|c: int| 0 <= c < c1 ==> !is_digit_byte(#[trigger] l[c]) {
        assert forall|c: int| 0 <= c < c1 implies !#[trigger] cell_marked(luma, w, row, c) by {
            lemma_text_alphabet(luma, w, row, c);
            assert(!is_digit_byte(l[c]));
        }
        lemma_line_starts_with_three(luma, w, row, c1);
    }
}

/// The text art is its lines in order: byte `r * (3 * w + 1) + c` of the
/// text of a picture `w` by `h` is byte `c` of line `r`, for every line
/// `r < 3 * h` and column `c <= 3 * w`.
pub proof fn lemma_text_art_lines(luma: Seq<u8>, w: int, h: int, r: int, c: int)
    requires
        0 <= w,
        0 <= r < 3 * h,
        0 <= c <= 3 * w,
    ensures
        text_art(luma, w, h).len() == (3 * h) * (3 * w + 1),
        0 <= r * (3 * w + 1) + c < text_art(luma, w, h).len(),
        text_art(luma, w, h)[r * (3 * w + 1) + c] == text_line(luma, w, r)[c],
{
    lemma_cell_index(r, c, 3 * w + 1, 3 * h);
}

/// Where pixel `(py, px)` of a picture `w` by `h` lands in its text art: in
/// lines `3 * py` to `3 * py + 2` and columns `3 * px` to `3 * px + 2`, a digit
/// exactly where the mask of the pixel's band is marked, a blank elsewhere;
/// every line ends with the line break.
pub proof fn lemma_text_art_layout(luma: Seq<u8>, w: int, h: int, py: int, px: int, dy: int, dx: int)
    requires
        0 <= py < h,
        0 <= px < w,
        0 <= dy < 3,
        0 <= dx < 3,
    ensures
        0 <= (3 * py + dy) * (3 * w + 1) + 3 * px + dx < text_art(luma, w, h).len(),
        is_digit_byte(text_art(luma, w, h)[(3 * py + dy) * (3 * w + 1) + 3 * px + dx])
            == mask_on(shade_of(luma[py * w + px]), dy, dx),
        !is_digit_byte(text_art(luma, w, h)[(3 * py + dy) * (3 * w + 1) + 3 * px + dx])
            ==> text_art(luma, w, h)[(3 * py + dy) * (3 * w + 1) + 3 * px + dx] == BLANK,
        text_art(luma, w, h)[(3 * py + dy) * (3 * w + 1) + 3 * w] == NEWLINE,
{
    lemma_text_art_lines(luma, w, h, 3 * py + dy, 3 * px + dx);
    lemma_text_art_lines(luma, w, h, 3 * py + dy, 3 * w);
    lemma_text_line_layout(luma, w, py, px, dy, dx);
}

/// Along each line of the text art the digits read 3, 7, 3, 7, ...
pub proof fn lemma_text_art_alternates(luma: Seq<u8>, w: int, h: int, r: int, c1: int, c2: int)
    requires
        0 <= r < 3 * h,
        0 <= c1 < c2 < 3 * w,
        is_digit_byte(text_art(luma, w, h)[r * (3 * w + 1) + c1]),
        is_digit_byte(text_art(luma, w, h)[r * (3 * w + 1) + c2]),
        forall|c: int|
            c1 < c < c2 ==> !is_digit_byte(#[trigger] text_art(luma, w, h)[r * (3 * w + 1) + c]),
    ensures
        text_art(luma, w, h)[r * (3 * w + 1) + c1] != text_art(luma, w, h)[r * (3 * w + 1) + c2],
        (forall|c: int|
            0 <= c < c1 ==> !is_digit_byte(#[trigger] text_art(luma, w, h)[r * (3 * w + 1) + c]))
            ==> text_art(luma, w, h)[r * (3 * w + 1) + c1] == THREE,
{
    let l = text_line(luma, w, r);
    let t = text_art(luma, w, h);
    lemma_text_art_lines(luma, w, h, r, c1);
    lemma_text_art_lines(luma, w, h, r, c2);
    assert forall|c: int| c1 < c < c2 implies !is_digit_byte(#[trigger] l[c]) by {
        lemma_text_art_lines(luma, w, h, r, c);
        assert(!is_digit_byte(t[r * (3 * w + 1) + c]));
    }
    lemma_text_line_alternates(luma, w, r, c1, c2);
    if forall|c: int| 0 <= c < c1 ==> !is_digit_byte(#[trigger] t[r * (3 * w + 1) + c]) {
        assert forall|c: int| 0 <= c < c1 implies !is_digit_byte(#[trigger] l[c]) by {
            lemma_text_art_lines(luma, w, h, r, c);
            assert(!is_digit_byte(t[r * (3 * w + 1) + c]));
        }
    }
}

} // verus!
