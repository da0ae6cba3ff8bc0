use stamp_art::menu::{
    background_from_choice, format_from_choice, scale_from_choice, video_divisor, Background,
    OutputFormat,
};
use stamp_art::pattern::{mask_bit, shade, stamp_bit, Digit, Shade, SEVEN, THREE};

#[test]
fn shade_band_edges() {
    assert_eq!(shade(0), Shade::Dark);
    assert_eq!(shade(63), Shade::Dark);
    assert_eq!(shade(64), Shade::Gray);
    assert_eq!(shade(127), Shade::Gray);
    assert_eq!(shade(128), Shade::Light);
    assert_eq!(shade(191), Shade::Light);
    assert_eq!(shade(192), Shade::White);
    assert_eq!(shade(255), Shade::White);
}

fn mask(s: Shade) -> [[u8; 3]; 3] {
    let mut m = [[0u8; 3]; 3];
    for r in 0..3 {
        for c in 0..3 {
            m[r][c] = mask_bit(s, r, c);
        }
    }
    m
}

fn stamp(d: Digit) -> [[u8; 5]; 5] {
    let mut m = [[0u8; 5]; 5];
    for r in 0..5 {
        for c in 0..5 {
            m[r][c] = stamp_bit(d, r, c);
        }
    }
    m
}

#[test]
fn mask_tables() {
    assert_eq!(mask(Shade::Dark), [[1, 1, 1], [1, 1, 1], [1, 1, 1]]);
    assert_eq!(mask(Shade::Gray), [[0, 1, 0], [1, 1, 1], [0, 1, 0]]);
    assert_eq!(mask(Shade::Light), [[0, 0, 0], [0, 1, 0], [0, 0, 0]]);
    assert_eq!(mask(Shade::White), [[0, 0, 0], [0, 0, 0], [0, 0, 0]]);
}

#[test]
fn darker_masks_are_supersets() {
    for dark in 0..=255u8 {
        for light in dark..=255u8 {
            let (md, ml) = (mask(shade(dark)), mask(shade(light)));
            for r in 0..3 {
                for c in 0..3 {
                    assert!(ml[r][c] <= md[r][c]);
                }
            }
        }
    }
}

#[test]
fn stamp_tables() {
    assert_eq!(
        stamp(Digit::Three),
        [
            [1, 1, 1, 1, 1],
            [0, 0, 0, 0, 1],
            [1, 1, 1, 1, 1],
            [0, 0, 0, 0, 1],
            [1, 1, 1, 1, 1],
        ]
    );
    assert_eq!(
        stamp(Digit::Seven),
        [
            [1, 1, 1, 1, 1],
            [0, 0, 0, 0, 1],
            [0, 0, 0, 1, 0],
            [0, 0, 1, 0, 0],
            [0, 1, 0, 0, 0],
        ]
    );
}

#[test]
fn digit_bytes() {
    assert_eq!(THREE, b'3');
    assert_eq!(SEVEN, b'7');
}

#[test]
fn format_choices() {
    assert_eq!(format_from_choice(0), None);
    assert_eq!(format_from_choice(1), Some(OutputFormat::Classic));
    assert_eq!(format_from_choice(2), Some(OutputFormat::Rgb));
    assert_eq!(format_from_choice(3), Some(OutputFormat::OneToOne));
    assert_eq!(format_from_choice(4), Some(OutputFormat::Video));
    assert_eq!(format_from_choice(5), None);
    assert_eq!(format_from_choice(255), None);
}

#[test]
fn background_choices() {
    assert_eq!(background_from_choice(0), None);
    assert_eq!(background_from_choice(1), Some(Background::Black));
    assert_eq!(background_from_choice(2), Some(Background::Auto));
    assert_eq!(background_from_choice(3), None);
    assert_eq!(Background::Black.divisor(), 255);
    assert_eq!(Background::Auto.divisor(), 2);
    assert_eq!(video_divisor(), 2);
}

#[test]
fn scale_choices() {
    assert_eq!(scale_from_choice(0), None);
    assert_eq!(scale_from_choice(1), Some(1));
    assert_eq!(scale_from_choice(7), Some(7));
}
