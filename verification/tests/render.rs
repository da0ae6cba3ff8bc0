use stamp_art::classic::render_classic;
use stamp_art::mosaic::{render_mosaic, render_mosaic_row, render_tile_row, render_tiles};
use stamp_art::stamp::{render_stamp_row, render_stamps};
use stamp_art::text::{render_text, render_text_line};

const MASK_DARK: [[u8; 3]; 3] = [[1, 1, 1], [1, 1, 1], [1, 1, 1]];
const MASK_GRAY: [[u8; 3]; 3] = [[0, 1, 0], [1, 1, 1], [0, 1, 0]];
const MASK_LIGHT: [[u8; 3]; 3] = [[0, 0, 0], [0, 1, 0], [0, 0, 0]];
const MASK_WHITE: [[u8; 3]; 3] = [[0, 0, 0], [0, 0, 0], [0, 0, 0]];
const STAMP_3: [[u8; 5]; 5] = [
    [1, 1, 1, 1, 1],
    [0, 0, 0, 0, 1],
    [1, 1, 1, 1, 1],
    [0, 0, 0, 0, 1],
    [1, 1, 1, 1, 1],
];
const STAMP_7: [[u8; 5]; 5] = [
    [1, 1, 1, 1, 1],
    [0, 0, 0, 0, 1],
    [0, 0, 0, 1, 0],
    [0, 0, 1, 0, 0],
    [0, 1, 0, 0, 0],
];

/// A straightforward, sequential drawing of the text art, row by row.
fn reference_text(res: &[u8], w: u32, h: u32) -> Vec<u8> {
    let width = ((w * 3) + 1) as usize;
    let height = (h * 3) as usize;
    let mut buffer = vec![b' '; width * height];
    for (y, row) in buffer.chunks_mut(width).enumerate() {
        let rowy = y / 3;
        let maty = y % 3;
        let mut cur = b'3';
        for x in 0..(width - 1) {
            let pixel = x / 3;
            let matx = x % 3;
            let cords = (rowy * (width / 3)) + pixel;
            let mask = match res[cords] {
                0..64 => MASK_DARK,
                64..128 => MASK_GRAY,
                128..192 => MASK_LIGHT,
                192..=255 => MASK_WHITE,
            };
            if mask[maty][matx] == 1 {
                row[x] = cur;
                cur = if cur == b'3' { b'7' } else { b'3' };
            }
        }
        row[width - 1] = b'\n';
    }
    buffer
}

fn reference_stamps(buffer: &[u8], tw: usize, th: usize) -> Vec<u8> {
    let width = tw * 5;
    let height = th * 5;
    let mut pngvec = vec![u8::MAX; width * height];
    for (y, row) in pngvec.chunks_mut(width).enumerate() {
        let rowy = y / 5;
        let maty = y % 5;
        for x in 0..width {
            let pixel = x / 5;
            let matx = x % 5;
            let cords = (rowy * (width / 5)) + pixel;
            match buffer[cords] {
                51 => {
                    if STAMP_3[maty][matx] == 1 {
                        row[x] = 0;
                    }
                }
                55 => {
                    if STAMP_7[maty][matx] == 1 {
                        row[x] = 0;
                    }
                }
                _ => (),
            }
        }
    }
    pngvec
}

fn reference_mosaic(rgb: &[u8], width: u32, height: u32) -> Vec<u8> {
    let width = width * 5;
    let height = height * 5;
    let mut pngvec = vec![0; (width * height) as usize * 3];
    for (y, row) in pngvec.chunks_mut(width as usize * 3).enumerate() {
        let rowy = y / 5;
        let maty = y % 5;
        for x in 0..width {
            let pixel = x / 5;
            let matx = (x % 5) as usize;
            let cords = (((rowy as u32 * (width / 5)) + pixel) * 3) as usize;
            let i = (x * 3) as usize;
            let stamp = if (rowy + pixel as usize) % 2 == 0 { STAMP_3 } else { STAMP_7 };
            if stamp[maty][matx] == 1 {
                row[i] = rgb[cords];
                row[i + 1] = rgb[cords + 1];
                row[i + 2] = rgb[cords + 2];
            }
        }
    }
    pngvec
}

fn reference_tiles(rgb: &[u8], width: u32, height: u32, choice: usize, colour: u8) -> Vec<u8> {
    let kratnost = choice * 5;
    let skoka = choice;
    let mut pngvec = vec![0; (width * height) as usize * 3];
    for (y, row) in pngvec.chunks_mut(width as usize * 3).enumerate() {
        let rowy = y / kratnost;
        let maty = (y % kratnost) / skoka;
        let rowy1 = rowy * kratnost;
        for x in 0..width {
            let pixel = x / kratnost as u32;
            let pixel1 = pixel * kratnost as u32;
            let matx = ((x % kratnost as u32) / skoka as u32) as usize;
            let cords = (((rowy1 as u32 * width) + pixel1) * 3) as usize;
            let i = (x * 3) as usize;
            let stamp = if (rowy + pixel as usize) % 2 == 0 { STAMP_3 } else { STAMP_7 };
            if stamp[maty][matx] == 1 {
                row[i] = rgb[cords];
                row[i + 1] = rgb[cords + 1];
                row[i + 2] = rgb[cords + 2];
            } else {
                row[i] = rgb[cords] / colour;
                row[i + 1] = rgb[cords + 1] / colour;
                row[i + 2] = rgb[cords + 2] / colour;
            }
        }
    }
    pngvec
}

/// Deterministic pseudo-random bytes.
fn bytes(n: usize, seed: u32) -> Vec<u8> {
    let mut s = seed.wrapping_mul(2654435761).wrapping_add(12345);
    (0..n)
        .map(|_| {
            s ^= s << 13;
            s ^= s >> 17;
            s ^= s << 5;
            (s >> 3) as u8
        })
        .collect()
}

#[test]
fn text_of_one_dark_pixel() {
    let t = render_text(&vec![0], 1, 1);
    assert_eq!(t, b"373\n373\n373\n".to_vec());
}

#[test]
fn text_of_one_gray_pixel() {
    let t = render_text(&vec![100], 1, 1);
    assert_eq!(t, b" 3 \n373\n 3 \n".to_vec());
}

#[test]
fn text_of_one_light_pixel() {
    let t = render_text(&vec![128], 1, 1);
    assert_eq!(t, b"   \n 3 \n   \n".to_vec());
}

#[test]
fn text_of_one_white_pixel() {
    let t = render_text(&vec![255], 1, 1);
    assert_eq!(t, b"   \n   \n   \n".to_vec());
}

#[test]
fn text_digits_alternate_across_pixels() {
    let t = render_text(&vec![0, 100], 2, 1);
    assert_eq!(t, b"373 7 \n373737\n373 7 \n".to_vec());
}

#[test]
fn text_of_empty_pictures() {
    assert_eq!(render_text(&vec![], 0, 2), b"\n\n\n\n\n\n".to_vec());
    assert_eq!(render_text(&vec![], 3, 0), Vec::<u8>::new());
}

#[test]
fn text_matches_reference() {
    for (w, h) in [(1u32, 1u32), (2, 3), (5, 4), (7, 1), (1, 6), (9, 9)] {
        let luma = bytes((w * h) as usize, w * 31 + h);
        let t = render_text(&luma, w, h);
        assert_eq!(t.len(), (3 * w as usize + 1) * (3 * h as usize));
        assert_eq!(t, reference_text(&luma, w, h));
    }
}

#[test]
fn text_alphabet_and_alternation() {
    let (w, h) = (8u32, 5u32);
    let luma = bytes((w * h) as usize, 99);
    let t = render_text(&luma, w, h);
    for line in t.split(|b| *b == b'\n').take(3 * h as usize) {
        assert_eq!(line.len(), 3 * w as usize);
        let digits: Vec<u8> = line.iter().copied().filter(|b| *b != b' ').collect();
        for (i, d) in digits.iter().enumerate() {
            assert_eq!(*d, if i % 2 == 0 { b'3' } else { b'7' });
        }
    }
}

#[test]
fn stamps_of_a_three() {
    let p = render_stamps(&b"3".to_vec(), 1, 1);
    let mut expected = Vec::new();
    for r in 0..5 {
        for c in 0..5 {
            expected.push(if STAMP_3[r][c] == 1 { 0 } else { 255 });
        }
    }
    assert_eq!(p, expected);
}

#[test]
fn stamps_of_a_seven() {
    let p = render_stamps(&b"7".to_vec(), 1, 1);
    let mut expected = Vec::new();
    for r in 0..5 {
        for c in 0..5 {
            expected.push(if STAMP_7[r][c] == 1 { 0 } else { 255 });
        }
    }
    assert_eq!(p, expected);
}

#[test]
fn stamps_of_other_bytes_are_paper() {
    assert_eq!(render_stamps(&b" \n".to_vec(), 2, 1), vec![255u8; 50]);
}

#[test]
fn stamps_match_reference() {
    for (w, h) in [(1u32, 1u32), (3, 2), (6, 5)] {
        let luma = bytes((w * h) as usize, w + 7 * h);
        let t = render_text(&luma, w, h);
        let (tw, th) = (3 * w as usize + 1, 3 * h as usize);
        let p = render_stamps(&t, tw, th);
        assert_eq!(p.len(), 25 * tw * th);
        assert_eq!(p, reference_stamps(&t, tw, th));
    }
}

#[test]
fn classic_of_one_dark_pixel() {
    let art = render_classic(&vec![0], 1, 1);
    assert_eq!(art.text, b"373\n373\n373\n".to_vec());
    assert_eq!(art.pixel_width, 20);
    assert_eq!(art.pixel_height, 15);
    assert_eq!(art.pixels.len(), 300);
    assert_eq!(art.pixels, reference_stamps(&art.text, 4, 3));
    // the last column of blocks is a line break, printed as paper
    for y in 0..15 {
        for x in 15..20 {
            assert_eq!(art.pixels[y * 20 + x], 255);
        }
    }
}

#[test]
fn mosaic_of_one_red_pixel() {
    let p = render_mosaic(&vec![255, 0, 0], 1, 1);
    assert_eq!(p.len(), 75);
    for r in 0..5 {
        for c in 0..5 {
            let px = &p[(r * 5 + c) * 3..(r * 5 + c) * 3 + 3];
            if STAMP_3[r][c] == 1 {
                assert_eq!(px, &[255, 0, 0]);
            } else {
                assert_eq!(px, &[0, 0, 0]);
            }
        }
    }
}

#[test]
fn mosaic_second_block_is_a_seven() {
    let p = render_mosaic(&vec![1, 2, 3, 4, 5, 6], 2, 1);
    assert_eq!(p.len(), 150);
    for r in 0..5 {
        for c in 0..5 {
            let i = (r * 10 + 5 + c) * 3;
            if STAMP_7[r][c] == 1 {
                assert_eq!(&p[i..i + 3], &[4, 5, 6]);
            } else {
                assert_eq!(&p[i..i + 3], &[0, 0, 0]);
            }
        }
    }
}

#[test]
fn mosaic_matches_reference() {
    for (w, h) in [(1u32, 1u32), (2, 2), (4, 3), (3, 5)] {
        let rgb = bytes((w * h * 3) as usize, w * 5 + h);
        assert_eq!(render_mosaic(&rgb, w, h), reference_mosaic(&rgb, w, h));
    }
}

#[test]
fn tiles_of_one_pixel() {
    let p = render_tiles(&vec![200, 100, 50], 1, 1, 1, 2);
    assert_eq!(p, vec![200, 100, 50]);
}

#[test]
fn tiles_background_is_divided() {
    // pixel (1, 0) of a 5x5 block lies outside the stamp of 3
    let rgb: Vec<u8> = (0..25).flat_map(|_| [200u8, 100, 51]).collect();
    let auto = render_tiles(&rgb, 5, 5, 1, 2);
    assert_eq!(&auto[15..18], &[100, 50, 25]);
    assert_eq!(&auto[0..3], &[200, 100, 51]);
    let black = render_tiles(&rgb, 5, 5, 1, 255);
    assert_eq!(&black[15..18], &[0, 0, 0]);
}

#[test]
fn tiles_take_the_block_corner() {
    // a 10x10 picture tiled with blocks of 10: every pixel draws on pixel (0, 0)
    let mut rgb = vec![9u8; 300];
    rgb[0] = 240;
    rgb[1] = 120;
    rgb[2] = 60;
    let p = render_tiles(&rgb, 10, 10, 2, 2);
    assert_eq!(&p[0..3], &[240, 120, 60]);
    // row 2, column 0 is in stamp row 1, column 0: outside the stamp of 3
    assert_eq!(&p[60..63], &[120, 60, 30]);
}

#[test]
fn tiles_match_reference() {
    for (w, h, k, d) in [
        (1u32, 1u32, 1usize, 2u8),
        (7, 6, 1, 2),
        (12, 11, 2, 255),
        (20, 9, 3, 2),
        (5, 16, 4, 255),
    ] {
        let rgb = bytes((w * h * 3) as usize, w * 3 + h * 11 + k as u32);
        assert_eq!(render_tiles(&rgb, w, h, k, d), reference_tiles(&rgb, w, h, k, d));
    }
}

#[test]
fn print_reads_back() {
    let text = b"37 \n".to_vec();
    let p = render_stamps(&text, 4, 1);
    let at = |r: usize, c: usize| p[r * 20 + c];
    for (i, b) in text.iter().enumerate() {
        assert_eq!(*b == b'3', at(2, 5 * i) == 0);
        assert_eq!(*b == b'7', at(0, 5 * i) == 0 && at(2, 5 * i) == 255);
        assert_eq!(*b != b'3' && *b != b'7', at(0, 5 * i) == 255);
    }
}

#[test]
fn tiles_never_brighten() {
    let (w, h, k) = (15u32, 10u32, 1usize);
    let rgb = bytes((w * h * 3) as usize, 4242);
    let p = render_tiles(&rgb, w, h, k, 2);
    for y in 0..h as usize {
        for x in 0..w as usize {
            let (by, bx) = ((y / 5) * 5, (x / 5) * 5);
            for ch in 0..3 {
                assert!(p[(y * w as usize + x) * 3 + ch] <= rgb[(by * w as usize + bx) * 3 + ch]);
            }
        }
    }
}

#[test]
fn rows_are_slices_of_the_whole() {
    let (w, h) = (6u32, 4u32);
    let luma = bytes((w * h) as usize, 5);
    let text = render_text(&luma, w, h);
    let tw = 3 * w as usize + 1;
    for y in 0..3 * h as usize {
        assert_eq!(render_text_line(&luma, w, h, y), text[y * tw..(y + 1) * tw].to_vec());
    }
    let th = 3 * h as usize;
    let print = render_stamps(&text, tw, th);
    for y in 0..5 * th {
        assert_eq!(render_stamp_row(&text, tw, th, y), print[y * 5 * tw..(y + 1) * 5 * tw].to_vec());
    }
    let rgb = bytes((w * h * 3) as usize, 8);
    let mosaic = render_mosaic(&rgb, w, h);
    let mw = 5 * w as usize * 3;
    for y in 0..5 * h as usize {
        assert_eq!(render_mosaic_row(&rgb, w, h, y), mosaic[y * mw..(y + 1) * mw].to_vec());
    }
    let tiles = render_tiles(&rgb, w, h, 1, 2);
    let rw = w as usize * 3;
    for y in 0..h as usize {
        assert_eq!(render_tile_row(&rgb, w, h, 1, 2, y), tiles[y * rw..(y + 1) * rw].to_vec());
    }
}

#[test]
fn tiles_with_blocks_larger_than_the_picture() {
    let rgb = bytes(3 * 3 * 3, 77);
    let p = render_tiles(&rgb, 3, 3, 10, 2);
    assert_eq!(p, reference_tiles(&rgb, 3, 3, 10, 2));
    // every pixel draws on pixel (0, 0)
    for i in 0..9 {
        for ch in 0..3 {
            assert!(p[i * 3 + ch] == rgb[ch] || p[i * 3 + ch] == rgb[ch] / 2);
        }
    }
}
