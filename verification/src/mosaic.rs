//! Colour pictures drawn with digits: the picture is cut into square
//! blocks laid out like a chessboard, each block holds the stamp of 3 or 7
//! (3 on the squares whose row and column add up to an even number), and
//! the stamp is coloured with a pixel of the source picture.
use vstd::prelude::*;
use vstd::arithmetic::div_mod::lemma_fundamental_div_mod_converse;
use crate::grid::{
    lemma_block_start, lemma_cell_index, lemma_channel_row, lemma_next_row, lemma_sub_block,
};
use crate::pattern::{stamp_bit, stamp_on, Digit};

verus! {

/// The digit of the block in block-row `rb` and block-column `cb`: 3 where
/// `rb + cb` is even, 7 where it is odd.
pub open spec fn checker_digit(rb: int, cb: int) -> Digit {
    if (rb + cb) % 2 == 0 {
        Digit::Three
    } else {
        Digit::Seven
    }
}

/// Channel `ch` of pixel (`row`, `col`) of the mosaic of the RGB picture
/// `rgb`, `w` pixels wide: each source pixel becomes a 5x5 block; where the
/// block's stamp is inked the pixel has the source pixel's colour, elsewhere
/// it is black.
pub open spec fn mosaic_channel(rgb: Seq<u8>, w: int, row: int, col: int, ch: int) -> u8 {
    let src = ((row / 5) * w + col / 5) * 3 + ch;
    if stamp_on(checker_digit(row / 5, col / 5), row % 5, col % 5) {
        rgb[src]
    } else {
        0
    }
}

/// The mosaic of the RGB picture `rgb`, `w` by `h` pixels: `5 * h` rows of
/// `5 * w` pixels of three channels each, row after row.
pub open spec fn mosaic_image(rgb: Seq<u8>, w: int, h: int) -> Seq<u8> {
    Seq::new(
        ((5 * h) * (5 * w) * 3) as nat,
        |i: int| mosaic_channel(rgb, w, (i / 3) / (5 * w), (i / 3) % (5 * w), i % 3),
    )
}

/// Channel `ch` of pixel (`row`, `col`) of the tiling of the RGB picture
/// `rgb`, `w` pixels wide, with blocks of `5 * k` pixels: every pixel of a
/// block takes the colour of the block's top-left source pixel; the stamp of
/// the block's digit, scaled up `k` times, keeps that colour, and the rest
/// of the block has each channel divided by `divisor`.
pub open spec fn tile_channel(
    rgb: Seq<u8>,
    w: int,
    k: int,
    divisor: u8,
    row: int,
    col: int,
    ch: int,
) -> u8 {
    let kr = 5 * k;
    let rb = row / kr;
    let cb = col / kr;
    let src = ((rb * kr) * w + cb * kr) * 3 + ch;
    if stamp_on(checker_digit(rb, cb), (row % kr) / k, (col % kr) / k) {
        rgb[src]
    } else {
        rgb[src] / divisor
    }
}

/// The tiling of the RGB picture `rgb`, `w` by `h` pixels, with blocks of
/// `5 * k` pixels: a picture of the same size, row after row.
pub open spec fn tile_image(rgb: Seq<u8>, w: int, h: int, k: int, divisor: u8) -> Seq<u8> {
    Seq::new(
        (h * w * 3) as nat,
        |i: int| tile_channel(rgb, w, k, divisor, (i / 3) / w, (i / 3) % w, i % 3),
    )
}

/// The digits form a chessboard: the top-left block holds 3, and blocks
/// that touch along an edge hold different digits.
pub proof fn lemma_checker_alternates(rb: int, cb: int)
    requires
        0 <= rb,
        0 <= cb,
    ensures
        checker_digit(0, 0) == Digit::Three,
        checker_digit(rb, cb) != checker_digit(rb + 1, cb),
        checker_digit(rb, cb) != checker_digit(rb, cb + 1),
{
}

/// Source pixel `(py, px)` becomes the 5x5 block of the mosaic from row
/// `5 * py` and column `5 * px`: the stamp of the block's digit in the
/// pixel's colour, on black.
pub proof fn lemma_mosaic_block(rgb: Seq<u8>, w: int, py: int, px: int, dy: int, dx: int, ch: int)
    requires
        0 <= py,
        0 <= px < w,
        0 <= dy < 5,
        0 <= dx < 5,
    ensures
        mosaic_channel(rgb, w, 5 * py + dy, 5 * px + dx, ch) == if stamp_on(
            checker_digit(py, px),
            dy,
            dx,
        ) {
            rgb[(py * w + px) * 3 + ch]
        } else {
            0u8
        },
{
    lemma_fundamental_div_mod_converse(5 * py + dy, 5, py, dy);
    lemma_fundamental_div_mod_converse(5 * px + dx, 5, px, dx);
}

/// Block `(rb, cb)` of the tiling covers the `5 * k` by `5 * k` pixels from
/// row `5 * k * rb` and column `5 * k * cb`; all of them take the colour of
/// the block's top-left pixel, kept inside the block's digit scaled up `k`
/// times and divided by `divisor` around it.
pub proof fn lemma_tile_block(
    rgb: Seq<u8>,
    w: int,
    k: int,
    divisor: u8,
    rb: int,
    cb: int,
    dy: int,
    dx: int,
    ch: int,
)
    requires
        0 < k,
        0 <= rb,
        0 <= cb,
        0 <= dy < 5 * k,
        0 <= dx < 5 * k,
    ensures
        tile_channel(rgb, w, k, divisor, rb * (5 * k) + dy, cb * (5 * k) + dx, ch) == if stamp_on(
            checker_digit(rb, cb),
            dy / k,
            dx / k,
        ) {
            rgb[((rb * (5 * k)) * w + cb * (5 * k)) * 3 + ch]
        } else {
            rgb[((rb * (5 * k)) * w + cb * (5 * k)) * 3 + ch] / divisor
        },
{
    lemma_fundamental_div_mod_converse(rb * (5 * k) + dy, 5 * k, rb, dy);
    lemma_fundamental_div_mod_converse(cb * (5 * k) + dx, 5 * k, cb, dx);
}

/// The tiling never brightens: each channel is at most the same channel of
/// the block's top-left source pixel, and equals it inside the stamp.
pub proof fn lemma_tile_never_brighter(
    rgb: Seq<u8>,
    w: int,
    k: int,
    divisor: u8,
    row: int,
    col: int,
    ch: int,
)
    requires
        0 < k,
        0 < divisor,
    ensures
        tile_channel(rgb, w, k, divisor, row, col, ch) <= rgb[((row / (5 * k)) * (5 * k) * w + (col
            / (5 * k)) * (5 * k)) * 3 + ch],
{
    let v = rgb[((row / (5 * k)) * (5 * k) * w + (col / (5 * k)) * (5 * k)) * 3 + ch];
    assert(v / divisor <= v) by (nonlinear_arith)
        requires
            0 < divisor,
    ;
}

/// Appends one pixel of three channels.
fn push_rgb(out: &mut Vec<u8>, r: u8, g: u8, b: u8)
    ensures
        final(out)@ == old(out)@.push(r).push(g).push(b),
{
    out.push(r);
    out.push(g);
    out.push(b);
}

/// The channel `i % 3` of pixel `i / 3` of a buffer in which pixel `p`
/// occupies entries `3 * p` to `3 * p + 2`.
proof fn lemma_channel(p: int, c: int)
    requires
        0 <= p,
        0 <= c < 3,
    ensures
        (p * 3 + c) / 3 == p,
        (p * 3 + c) % 3 == c,
{
    lemma_fundamental_div_mod_converse(p * 3 + c, 3, p, c);
}

/// Row `row` of the mosaic of `rgb`, `w` pixels wide: `5 * w` pixels of
/// three channels each.
pub open spec fn mosaic_row(rgb: Seq<u8>, w: int, row: int) -> Seq<u8> {
    Seq::new(((5 * w) * 3) as nat, |j: int| mosaic_channel(rgb, w, row, j / 3, j % 3))
}

/// Row `row` of the tiling of `rgb`, `w` pixels wide: `w` pixels of three
/// channels each.
pub open spec fn tile_row(rgb: Seq<u8>, w: int, k: int, divisor: u8, row: int) -> Seq<u8> {
    Seq::new((w * 3) as nat, |j: int| tile_channel(rgb, w, k, divisor, row, j / 3, j % 3))
}

/// Where the last block of `5 * k` positions starts along a side of `n` positions.
pub open spec fn last_block_start(n: int, k: int) -> int {
    ((n - 1) / (5 * k)) * (5 * k)
}

/// Draws row `row` of the mosaic of an RGB picture of `width` by `height`
/// pixels, stored row by row in `rgb` with three channels per pixel.
pub fn render_mosaic_row(rgb: &Vec<u8>, width: u32, height: u32, row: usize) -> (line: Vec<u8>)
    requires
        width > 0,
        rgb.len() == (width * height) * 3,
        5 * width <= u32::MAX,
        row < 5 * height,
    ensures
        line@ == mosaic_row(rgb@, width as int, row as int),
{
    let w = width as usize;
    let h = height as usize;
    let pw: usize = 5 * w;
    let ghost lr = rgb@;
    proof {
        assert((h as int) * (w as int) == (w as int) * (h as int)) by (nonlinear_arith);
    }
    let rowy = row / 5;
    let maty = row % 5;
    let mut line: Vec<u8> = Vec::new();
    let mut x: usize = 0;
    while x < pw
        invariant
            lr == rgb@,
            w == width,
            h == height,
            w > 0,
            rgb.len() == (h * w) * 3,
            pw == 5 * w,
            row < 5 * h,
            rowy == row / 5,
            maty == row % 5,
            x <= pw,
            line.len() == x * 3,
            forall|j: int|
                0 <= j < line.len() ==> #[trigger] line@[j] == mosaic_channel(
                    lr,
                    w as int,
                    row as int,
                    j / 3,
                    j % 3,
                ),
        decreases pw - x,
    {
        let pixel = x / 5;
        let matx = x % 5;
        proof {
            assert(rowy < h);
            assert(pixel < w);
            lemma_cell_index(rowy as int, pixel as int, w as int, h as int);
        }
        let src = (rowy * w + pixel) * 3;
        let digit = if (rowy + pixel) % 2 == 0 {
            Digit::Three
        } else {
            Digit::Seven
        };
        let ghost before = line@;
        if stamp_bit(digit, maty, matx) == 1 {
            push_rgb(&mut line, rgb[src], rgb[src + 1], rgb[src + 2]);
        } else {
            push_rgb(&mut line, 0, 0, 0);
        }
        assert forall|j: int| 0 <= j < line.len() implies #[trigger] line@[j] == mosaic_channel(
            lr,
            w as int,
            row as int,
            j / 3,
            j % 3,
        ) by {
            if j < before.len() {
                assert(line@[j] == before[j]);
            } else {
                lemma_channel(x as int, j - x * 3);
            }
        }
        x = x + 1;
    }
    assert(line@ =~= mosaic_row(lr, width as int, row as int));
    line
}

/// Draws the mosaic of an RGB picture of `width` by `height` pixels, stored
/// row by row in `rgb` with three channels per pixel: a picture five times as
/// wide and five times as high, in which every source pixel becomes the
/// stamp of a digit in its colour on black.
pub fn render_mosaic(rgb: &Vec<u8>, width: u32, height: u32) -> (pixels: Vec<u8>)
    requires
        width > 0,
        rgb.len() == (width * height) * 3,
        5 * width <= u32::MAX,
        5 * height <= u32::MAX,
        (5 * width) * (5 * height) <= u32::MAX,
        ((5 * width) * (5 * height)) * 3 <= usize::MAX,
    ensures
        pixels@ == mosaic_image(rgb@, width as int, height as int),
{
    let w = width as usize;
    let pw: usize = 5 * w;
    let ph: usize = 5 * (height as usize);
    let ghost lr = rgb@;
    let mut pixels: Vec<u8> = Vec::new();
    let mut y: usize = 0;
    while y < ph
        invariant
            lr == rgb@,
            w == width,
            w > 0,
            rgb.len() == (width * height) * 3,
            5 * width <= u32::MAX,
            pw == 5 * w,
            ph == 5 * height,
            y <= ph,
            pixels.len() == y * (pw * 3),
            forall|i: int|
                0 <= i < pixels.len() ==> #[trigger] pixels@[i] == mosaic_channel(
                    lr,
                    w as int,
                    (i / 3) / (pw as int),
                    (i / 3) % (pw as int),
                    i % 3,
                ),
        decreases ph - y,
    {
        let mut line = render_mosaic_row(rgb, width, height, y);
        let ghost before = pixels@;
        let ghost lline = line@;
        pixels.append(&mut line);
        assert forall|i: int| 0 <= i < pixels.len() implies #[trigger] pixels@[i] == mosaic_channel(
            lr,
            w as int,
            (i / 3) / (pw as int),
            (i / 3) % (pw as int),
            i % 3,
        ) by {
            if i < before.len() {
                assert(pixels@[i] == before[i]);
            } else {
                let j = i - before.len();
                assert(pixels@[i] == lline[j]);
                lemma_channel_row(y as int, pw as int, j);
            }
        }
        proof {
            lemma_next_row(y as int, (pw * 3) as int);
        }
        y = y + 1;
    }
    proof {
        assert((ph as int) * ((pw as int) * 3) == ((5 * height) * (5 * width)) * 3) by (nonlinear_arith)
            requires
                ph == 5 * height,
                pw == 5 * width,
        ;
    }
    assert(pixels@ =~= mosaic_image(lr, width as int, height as int));
    pixels
}

/// Draws row `row` of the tiling of an RGB picture of `width` by `height`
/// pixels, stored row by row in `rgb` with three channels per pixel, with
/// blocks of `5 * scale` pixels.
pub fn render_tile_row(
    rgb: &Vec<u8>,
    width: u32,
    height: u32,
    scale: usize,
    divisor: u8,
    row: usize,
) -> (line: Vec<u8>)
    requires
        width > 0,
        rgb.len() == (width * height) * 3,
        width * height <= u32::MAX,
        3 * (width - 1) <= u32::MAX,
        3 * (last_block_start(height as int, scale as int) * width + last_block_start(
            width as int,
            scale as int,
        )) <= u32::MAX,
        scale > 0,
        5 * scale <= u32::MAX,
        divisor > 0,
        row < height,
    ensures
        line@ == tile_row(rgb@, width as int, scale as int, divisor, row as int),
{
    let w = width as usize;
    let h = height as usize;
    let k = scale;
    let kr: usize = 5 * k;
    let ghost lr = rgb@;
    proof {
        assert((h as int) * (w as int) == (w as int) * (h as int)) by (nonlinear_arith);
        lemma_block_start(row as int, kr as int);
        lemma_sub_block((row % kr) as int, k as int);
    }
    let rowy = row / kr;
    let maty = (row % kr) / k;
    let rowy1 = rowy * kr;
    let mut line: Vec<u8> = Vec::new();
    let mut x: usize = 0;
    while x < w
        invariant
            lr == rgb@,
            w == width,
            h == height,
            w > 0,
            rgb.len() == (h * w) * 3,
            k == scale,
            k > 0,
            kr == 5 * k,
            divisor > 0,
            row < h,
            rowy == row / kr,
            rowy1 == rowy * kr,
            rowy1 <= row,
            rowy <= row,
            maty == (row % kr) / k,
            maty < 5,
            x <= w,
            (h * w) <= u32::MAX,
            line.len() == x * 3,
            forall|j: int|
                0 <= j < line.len() ==> #[trigger] line@[j] == tile_channel(
                    lr,
                    w as int,
                    k as int,
                    divisor,
                    row as int,
                    j / 3,
                    j % 3,
                ),
        decreases w - x,
    {
        let pixel = x / kr;
        proof {
            lemma_block_start(x as int, kr as int);
            lemma_sub_block((x % kr) as int, k as int);
            lemma_cell_index(rowy1 as int, (pixel * kr) as int, w as int, h as int);
            assert(rowy + pixel < h * w) by (nonlinear_arith)
                requires
                    rowy <= row < h,
                    pixel <= x < w,
            ;
        }
        let pixel1 = pixel * kr;
        let matx = (x % kr) / k;
        let src = (rowy1 * w + pixel1) * 3;
        let digit = if (rowy + pixel) % 2 == 0 {
            Digit::Three
        } else {
            Digit::Seven
        };
        let ghost before = line@;
        if stamp_bit(digit, maty, matx) == 1 {
            push_rgb(&mut line, rgb[src], rgb[src + 1], rgb[src + 2]);
        } else {
            push_rgb(&mut line, rgb[src] / divisor, rgb[src + 1] / divisor, rgb[src + 2] / divisor);
        }
        assert forall|j: int| 0 <= j < line.len() implies #[trigger] line@[j] == tile_channel(
            lr,
            w as int,
            k as int,
            divisor,
            row as int,
            j / 3,
            j % 3,
        ) by {
            if j < before.len() {
                assert(line@[j] == before[j]);
            } else {
                lemma_channel(x as int, j - x * 3);
            }
        }
        x = x + 1;
    }
    assert(line@ =~= tile_row(lr, width as int, scale as int, divisor, row as int));
    line
}

/// Tiles an RGB picture of `width` by `height` pixels, stored row by row in
/// `rgb` with three channels per pixel, with blocks of `5 * scale` pixels
/// that each hold the stamp of a digit scaled up `scale` times: a picture of
/// the same size, whose blocks take the colour of their top-left pixel, full
/// inside the stamp and divided by `divisor` around it.
pub fn render_tiles(rgb: &Vec<u8>, width: u32, height: u32, scale: usize, divisor: u8) -> (pixels: Vec<u8>)
    requires
        width > 0,
        rgb.len() == (width * height) * 3,
        width * height <= u32::MAX,
        3 * (width - 1) <= u32::MAX,
        height > 0 ==> 3 * (last_block_start(height as int, scale as int) * width
            + last_block_start(width as int, scale as int)) <= u32::MAX,
        scale > 0,
        5 * scale <= u32::MAX,
        divisor > 0,
    ensures
        pixels@ == tile_image(rgb@, width as int, height as int, scale as int, divisor),
{
    let w = width as usize;
    let h = height as usize;
    let ghost lr = rgb@;
    let mut pixels: Vec<u8> = Vec::new();
    let mut y: usize = 0;
    while y < h
        invariant
            lr == rgb@,
            w == width,
            h == height,
            w > 0,
            rgb.len() == (width * height) * 3,
            width * height <= u32::MAX,
            3 * (width - 1) <= u32::MAX,
            height > 0 ==> 3 * (last_block_start(height as int, scale as int) * width
                + last_block_start(width as int, scale as int)) <= u32::MAX,
            scale > 0,
            5 * scale <= u32::MAX,
            divisor > 0,
            y <= h,
            pixels.len() == y * (w * 3),
            forall|i: int|
                0 <= i < pixels.len() ==> #[trigger] pixels@[i] == tile_channel(
                    lr,
                    w as int,
                    scale as int,
                    divisor,
                    (i / 3) / (w as int),
                    (i / 3) % (w as int),
                    i % 3,
                ),
        decreases h - y,
    {
        let mut line = render_tile_row(rgb, width, height, scale, divisor, y);
        let ghost before = pixels@;
        let ghost lline = line@;
        pixels.append(&mut line);
        assert forall|i: int| 0 <= i < pixels.len() implies #[trigger] pixels@[i] == tile_channel(
            lr,
            w as int,
            scale as int,
            divisor,
            (i / 3) / (w as int),
            (i / 3) % (w as int),
            i % 3,
        ) by {
            if i < before.len() {
                assert(pixels@[i] == before[i]);
            } else {
                let j = i - before.len();
                assert(pixels@[i] == lline[j]);
                lemma_channel_row(y as int, w as int, j);
            }
        }
        proof {
            lemma_next_row(y as int, (w * 3) as int);
        }
        y = y + 1;
    }
    proof {
        assert((h as int) * ((w as int) * 3) == ((height as int) * (width as int)) * 3) by (nonlinear_arith)
            requires
                h == height,
                w == width,
        ;
    }
    assert(pixels@ =~= tile_image(lr, width as int, height as int, scale as int, divisor));
    pixels
}

/// Whether place `(dy, dx)` of the stamp in block `(rb, cb)` of the
/// chessboard is inked: the stamp of 3 where `rb + cb` is even, of 7 where
/// it is odd.
pub open spec fn board_inked(rb: int, cb: int, dy: int, dx: int) -> bool {
    if (rb + cb) % 2 == 0 {
        stamp_on(Digit::Three, dy, dx)
    } else {
        stamp_on(Digit::Seven, dy, dx)
    }
}

/// Where source pixel `(py, px)` lands in row `5 * py + dy` of the mosaic: at
/// pixels `5 * px` to `5 * px + 4`, channel `ch` of each is channel `ch` of
/// the source pixel where its stamp is inked, and 0 elsewhere.
pub proof fn lemma_mosaic_row_layout(rgb: Seq<u8>, w: int, py: int, px: int, dy: int, dx: int, ch: int)
    requires
        0 <= py,
        0 <= px < w,
        0 <= dy < 5,
        0 <= dx < 5,
        0 <= ch < 3,
    ensures
        mosaic_row(rgb, w, 5 * py + dy).len() == (5 * w) * 3,
        mosaic_row(rgb, w, 5 * py + dy)[(5 * px + dx) * 3 + ch] == if board_inked(py, px, dy, dx) {
            rgb[(py * w + px) * 3 + ch]
        } else {
            0u8
        },
{
    lemma_channel(5 * px + dx, ch);
    lemma_mosaic_block(rgb, w, py, px, dy, dx, ch);
}

/// Where source pixel `(py, px)` of a picture `w` by `h` lands in its mosaic,
/// `5 * w` pixels wide: the block of rows `5 * py` to `5 * py + 4` and columns
/// `5 * px` to `5 * px + 4`, with the source pixel's channels in order where
/// the stamp is inked and black elsewhere.
pub proof fn lemma_mosaic_image_layout(
    rgb: Seq<u8>,
    w: int,
    h: int,
    py: int,
    px: int,
    dy: int,
    dx: int,
    ch: int,
)
    requires
        0 <= py < h,
        0 <= px < w,
        0 <= dy < 5,
        0 <= dx < 5,
        0 <= ch < 3,
    ensures
        0 <= ((5 * py + dy) * (5 * w) + 5 * px + dx) * 3 + ch < mosaic_image(rgb, w, h).len(),
        mosaic_image(rgb, w, h)[((5 * py + dy) * (5 * w) + 5 * px + dx) * 3 + ch] == if board_inked(
            py,
            px,
            dy,
            dx,
        ) {
            rgb[(py * w + px) * 3 + ch]
        } else {
            0u8
        },
{
    let p = (5 * py + dy) * (5 * w) + 5 * px + dx;
    lemma_cell_index(5 * py + dy, 5 * px + dx, 5 * w, 5 * h);
    lemma_channel(p, ch);
    lemma_mosaic_block(rgb, w, py, px, dy, dx, ch);
}

/// Where block `(rb, cb)` of the tiling lands in row `rb * 5k + dy`: every
/// pixel `cb * 5k + dx` of the block takes channel `ch` of the block's
/// top-left source pixel, kept where the stamp scaled up `k` times is inked
/// and divided by `divisor` elsewhere.
pub proof fn lemma_tile_row_layout(
    rgb: Seq<u8>,
    w: int,
    k: int,
    divisor: u8,
    rb: int,
    cb: int,
    dy: int,
    dx: int,
    ch: int,
)
    requires
        0 < k,
        0 <= rb,
        0 <= cb,
        0 <= dy < 5 * k,
        0 <= dx < 5 * k,
        cb * (5 * k) + dx < w,
        0 <= ch < 3,
    ensures
        tile_row(rgb, w, k, divisor, rb * (5 * k) + dy).len() == w * 3,
        tile_row(rgb, w, k, divisor, rb * (5 * k) + dy)[(cb * (5 * k) + dx) * 3 + ch] == if board_inked(
            rb,
            cb,
            dy / k,
            dx / k,
        ) {
            rgb[((rb * (5 * k)) * w + cb * (5 * k)) * 3 + ch]
        } else {
            rgb[((rb * (5 * k)) * w + cb * (5 * k)) * 3 + ch] / divisor
        },
{
    assert(0 <= cb * (5 * k)) by (nonlinear_arith)
        requires
            0 <= cb,
            0 < k,
    ;
    lemma_channel(cb * (5 * k) + dx, ch);
    lemma_tile_block(rgb, w, k, divisor, rb, cb, dy, dx, ch);
}

/// Where block `(rb, cb)` of the tiling of a picture `w` by `h` lands: the
/// pixels from row `rb * 5k` and column `cb * 5k` of a picture of the same
/// size, each with channel `ch` of the block's top-left source pixel, kept
/// where the stamp scaled up `k` times is inked and divided by `divisor`
/// elsewhere.
pub proof fn lemma_tile_image_layout(
    rgb: Seq<u8>,
    w: int,
    h: int,
    k: int,
    divisor: u8,
    rb: int,
    cb: int,
    dy: int,
    dx: int,
    ch: int,
)
    requires
        0 < k,
        0 <= rb,
        0 <= cb,
        0 <= dy < 5 * k,
        0 <= dx < 5 * k,
        rb * (5 * k) + dy < h,
        cb * (5 * k) + dx < w,
        0 <= ch < 3,
    ensures
        0 <= ((rb * (5 * k) + dy) * w + cb * (5 * k) + dx) * 3 + ch < tile_image(
            rgb,
            w,
            h,
            k,
            divisor,
        ).len(),
        tile_image(rgb, w, h, k, divisor)[((rb * (5 * k) + dy) * w + cb * (5 * k) + dx) * 3 + ch]
            == if board_inked(rb, cb, dy / k, dx / k) {
            rgb[((rb * (5 * k)) * w + cb * (5 * k)) * 3 + ch]
        } else {
            rgb[((rb * (5 * k)) * w + cb * (5 * k)) * 3 + ch] / divisor
        },
{
    assert(0 <= cb * (5 * k) && 0 <= rb * (5 * k)) by (nonlinear_arith)
        requires
            0 <= cb,
            0 <= rb,
            0 < k,
    ;
    let p = (rb * (5 * k) + dy) * w + cb * (5 * k) + dx;
    lemma_cell_index(rb * (5 * k) + dy, cb * (5 * k) + dx, w, h);
    lemma_channel(p, ch);
    assert((h * w) * 3 == h * w * 3) by (nonlinear_arith);
    lemma_tile_block(rgb, w, k, divisor, rb, cb, dy, dx, ch);
}

} // verus!
