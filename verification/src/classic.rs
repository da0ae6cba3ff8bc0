//! The classic output: the text art of a gray picture together with its print.
use vstd::prelude::*;
use crate::stamp::{render_stamps, stamp_image};
use crate::text::{render_text, text_art, text_height, text_width};

verus! {

/// The text art of a picture and its print as a gray picture.
pub struct ClassicArt {
    /// The text art, line after line, each line ended by a line break.
    pub text: Vec<u8>,
    /// The print of the text, row after row, one gray level per pixel.
    pub pixels: Vec<u8>,
    /// The width of the print in pixels.
    pub pixel_width: usize,
    /// The height of the print in pixels.
    pub pixel_height: usize,
}

/// Draws the text art of a gray picture of `width` by `height` pixels,
/// stored row by row in `luma`, and prints it with a 5x5 stamp per character.
pub fn render_classic(luma: &Vec<u8>, width: u32, height: u32) -> (art: ClassicArt)
    requires
        luma.len() == width * height,
        text_width(width as int) <= u32::MAX,
        text_height(height as int) <= u32::MAX,
        5 * text_width(width as int) <= usize::MAX,
        5 * text_height(height as int) <= usize::MAX,
        (5 * text_height(height as int)) * (5 * text_width(width as int)) <= usize::MAX,
    ensures
        art.text@ == text_art(luma@, width as int, height as int),
        art.pixel_width == 5 * text_width(width as int),
        art.pixel_height == 5 * text_height(height as int),
        art.pixels@ == stamp_image(
            art.text@,
            text_width(width as int),
            text_height(height as int),
        ),
{
    let tw: usize = 3 * (width as usize) + 1;
    let th: usize = 3 * (height as usize);
    proof {
        assert((th as int) * (tw as int) <= (5 * th) * (5 * tw)) by (nonlinear_arith)
            requires
                0 <= th,
                0 <= tw,
        ;
    }
    let text = render_text(luma, width, height);
    let pixels = render_stamps(&text, tw, th);
    ClassicArt { text, pixels, pixel_width: 5 * tw, pixel_height: 5 * th }
}

} // verus!
