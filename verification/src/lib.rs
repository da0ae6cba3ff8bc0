//! Text and picture art drawn with the digits 3 and 7.
//!
//! A gray picture becomes text art in which every pixel is a 3x3 block of
//! cells marked according to its brightness, the marked cells of each line
//! written with 3 and 7 in turn; the text can be printed as a picture with a
//! 5x5 stamp per character. A colour picture becomes a chessboard of blocks
//! holding the stamps of 3 and 7 in the picture's colours. Every output can
//! also be drawn one row at a time, so that rows can be drawn in parallel.
pub mod classic;
pub mod grid;
pub mod line;
pub mod menu;
pub mod mosaic;
pub mod pattern;
pub mod stamp;
pub mod text;
