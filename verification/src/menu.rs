//! The answers that the program accepts to its questions.
use vstd::prelude::*;

verus! {

/// The kinds of output that can be asked for.
#[derive(Clone, Copy, Debug, PartialEq, Eq, Structural)]
pub enum OutputFormat {
    /// Text art of 3 and 7, and its print as a gray picture (answer 1).
    Classic,
    /// A colour mosaic five times the size of the picture (answer 2).
    Rgb,
    /// A colour tiling of the same size as the picture (answer 3).
    OneToOne,
    /// The tiling applied to every frame of a video (answer 4).
    Video,
}

/// The backgrounds that a tiling can have around its digits.
#[derive(Clone, Copy, Debug, PartialEq, Eq, Structural)]
pub enum Background {
    /// Nearly black: each channel is divided by 255 (answer 1).
    Black,
    /// The picture itself at half brightness (answer 2).
    Auto,
}

/// The output format chosen by the answer `num`: 1 to 4, in the order of
/// the menu; no format for any other number.
pub fn format_from_choice(num: u8) -> (f: Option<OutputFormat>)
    ensures
        f == match num {
            1 => Some(OutputFormat::Classic),
            2 => Some(OutputFormat::Rgb),
            3 => Some(OutputFormat::OneToOne),
            4 => Some(OutputFormat::Video),
            _ => None::<OutputFormat>,
        },
{
    if num == 1 {
        Some(OutputFormat::Classic)
    } else if num == 2 {
        Some(OutputFormat::Rgb)
    } else if num == 3 {
        Some(OutputFormat::OneToOne)
    } else if num == 4 {
        Some(OutputFormat::Video)
    } else {
        None
    }
}

/// The background chosen by the answer `num`: 1 for black, 2 for automatic;
/// none for any other number.
pub fn background_from_choice(num: u8) -> (b: Option<Background>)
    ensures
        b == match num {
            1 => Some(Background::Black),
            2 => Some(Background::Auto),
            _ => None::<Background>,
        },
{
    if num == 1 {
        Some(Background::Black)
    } else if num == 2 {
        Some(Background::Auto)
    } else {
        None
    }
}

/// The scale chosen by the answer `num`: any positive number; none for 0.
pub fn scale_from_choice(num: usize) -> (s: Option<usize>)
    ensures
        s == if num > 0 {
            Some(num)
        } else {
            None::<usize>
        },
{
    if num > 0 {
        Some(num)
    } else {
        None
    }
}

impl Background {
    /// What each channel around the digits is divided by: 255 for black,
    /// 2 for automatic.
    pub open spec fn spec_divisor(self) -> u8 {
        match self {
            Background::Black => 255,
            Background::Auto => 2,
        }
    }

    /// What each channel around the digits is divided by.
    pub fn divisor(&self) -> (d: u8)
        ensures
            d == self.spec_divisor(),
            d > 0,
    {
        match self {
            Background::Black => 255,
            Background::Auto => 2,
        }
    }
}

/// The divisor that the video frames are tiled with: their background is the
/// frame itself at half brightness.
pub fn video_divisor() -> (d: u8)
    ensures
        d == Background::Auto.spec_divisor(),
{
    Background::Auto.divisor()
}

} // verus!
