use desktop_switcher::icon::{argb, bgra_pixels, ico_file, pixels, png_file, Paint, ICO_SIZES};
use desktop_switcher::png::encode;
use desktop_switcher::resource::{resource_script, version_numbers};

fn u16_at(b: &[u8], i: usize) -> u16 {
    u16::from_le_bytes([b[i], b[i + 1]])
}

fn u32_at(b: &[u8], i: usize) -> u32 {
    u32::from_le_bytes([b[i], b[i + 1], b[i + 2], b[i + 3]])
}

#[test]
fn an_ico_file_declares_each_image_where_it_is() {
    let ico = ico_file(&ICO_SIZES);
    assert_eq!(u16_at(&ico, 0), 0);
    assert_eq!(u16_at(&ico, 2), 1, "type must be icon");
    assert_eq!(u16_at(&ico, 4) as usize, ICO_SIZES.len());

    let mut expected_offset = 6 + 16 * ICO_SIZES.len() as u32;
    for (n, &size) in ICO_SIZES.iter().enumerate() {
        let entry = 6 + 16 * n;
        let dim = if size == 256 { 0 } else { size as u8 };
        assert_eq!(ico[entry], dim, "width of {size}");
        assert_eq!(ico[entry + 1], dim, "height of {size}");
        assert_eq!(u16_at(&ico, entry + 6), 32);
        let length = u32_at(&ico, entry + 8);
        let offset = u32_at(&ico, entry + 12);
        assert_eq!(offset, expected_offset, "offset of {size}");
        // The bitmap header at that offset agrees on the size.
        assert_eq!(u32_at(&ico, offset as usize), 40);
        assert_eq!(u32_at(&ico, offset as usize + 4), size);
        assert_eq!(u32_at(&ico, offset as usize + 8), size * 2);
        expected_offset += length;
    }
    assert_eq!(
        expected_offset as usize,
        ico.len(),
        "no bytes unaccounted for"
    );
}

/// Bitmaps in an .ico are stored bottom row first, in BGRA.
#[test]
fn ico_pixels_are_bottom_up_bgra() {
    let size = 32;
    let ico = ico_file(&[size]);
    let pixels_start = 6 + 16 + 40;
    let rgba = pixels(size);
    // The first stored pixel is the bottom-left one.
    let src = (((size - 1) * size) * 4) as usize;
    assert_eq!(
        &ico[pixels_start..pixels_start + 4],
        &[rgba[src + 2], rgba[src + 1], rgba[src], rgba[src + 3]]
    );
    // A pixel on the screen, located from the top in the drawing.
    let (x, y) = (8u32, 12u32);
    let blue = Paint::Blue.rgb();
    let stored = pixels_start + (((size - 1 - y) * size + x) * 4) as usize;
    assert_eq!(&ico[stored..stored + 3], &[blue[2], blue[1], blue[0]]);
}

fn at(px: &[u8], size: u32, x: u32, y: u32) -> [u8; 4] {
    let i = ((y * size + x) * 4) as usize;
    [px[i], px[i + 1], px[i + 2], px[i + 3]]
}

#[test]
fn lib_every_size_a_taskbar_asks_for_is_drawn() {
    for size in [16, 20, 24, 32, 48] {
        assert_eq!(pixels(size).len(), (size * size * 4) as usize);
    }
}

#[test]
fn lib_the_corners_are_transparent() {
    let px = pixels(32);
    for (x, y) in [(0, 0), (31, 0), (0, 31), (31, 31)] {
        assert_eq!(at(&px, 32, x, y)[3], 0, "corner {x},{y}");
    }
}

#[test]
fn lib_the_screen_shows_two_sources() {
    let px = pixels(32);
    let left = at(&px, 32, 8, 12);
    let right = at(&px, 32, 23, 12);
    assert_eq!(&left[..3], &Paint::Blue.rgb());
    assert_eq!(&right[..3], &Paint::Amber.rgb());
    assert_eq!(left[3], 255);
}

#[test]
fn lib_the_stand_is_drawn() {
    let px = pixels(32);
    assert_eq!(&at(&px, 32, 16, 28)[..3], &Paint::Grey.rgb());
}

#[test]
fn icon_every_size_a_taskbar_asks_for_is_drawn() {
    for size in [16, 20, 24, 32, 48] {
        assert_eq!(pixels(size).len(), (size * size * 4) as usize);
    }
}

#[test]
fn icon_the_corners_are_transparent() {
    let px = pixels(32);
    for (x, y) in [(0, 0), (31, 0), (0, 31), (31, 31)] {
        assert_eq!(at(&px, 32, x, y)[3], 0, "corner {x},{y}");
    }
}

#[test]
fn icon_the_screen_shows_two_sources() {
    let px = pixels(32);
    let left = at(&px, 32, 8, 12);
    let right = at(&px, 32, 23, 12);
    assert_eq!(&left[..3], &Paint::Blue.rgb());
    assert_eq!(&right[..3], &Paint::Amber.rgb());
    assert_eq!(left[3], 255);
}

#[test]
fn icon_the_stand_is_drawn() {
    let px = pixels(32);
    assert_eq!(&at(&px, 32, 16, 28)[..3], &Paint::Grey.rgb());
}

/// The protocol wants ARGB with the most significant byte first.
#[test]
fn icons_are_argb_big_endian() {
    let size = 32;
    let rgba = pixels(size);
    let data = argb(size);
    assert_eq!(data.len(), rgba.len());
    let i = ((12 * size + 8) * 4) as usize;
    assert_eq!(
        &data[i..i + 4],
        &[rgba[i + 3], rgba[i], rgba[i + 1], rgba[i + 2]]
    );
}

#[test]
fn the_colours_are_the_ones_of_the_app() {
    assert_eq!(Paint::Blue.rgb().len(), 3);
    assert_ne!(Paint::Blue.rgb(), Paint::Amber.rgb());
    assert_ne!(Paint::Amber.rgb(), Paint::Grey.rgb());
}

#[test]
fn a_bitmap_wants_blue_first() {
    let size = 16u32;
    let rgba = pixels(size);
    let bgra = bgra_pixels(size);
    assert_eq!(rgba.len(), bgra.len());
    for i in (0..rgba.len()).step_by(4) {
        assert_eq!(
            &bgra[i..i + 4],
            &[rgba[i + 2], rgba[i + 1], rgba[i], rgba[i + 3]]
        );
    }
}

#[test]
fn an_edge_is_partly_covered() {
    let px = pixels(20);
    assert!(px.chunks(4).any(|p| p[3] > 0 && p[3] < 255));
}

#[test]
fn a_small_picture_is_this_png_file() {
    assert_eq!(
        encode(1, 2, &[1, 2, 3, 4, 5, 6, 7, 8]),
        vec![
            0x89, 0x50, 0x4E, 0x47, 0x0D, 0x0A, 0x1A, 0x0A, // signature
            0x00, 0x00, 0x00, 0x0D, 0x49, 0x48, 0x44, 0x52, // IHDR
            0x00, 0x00, 0x00, 0x01, 0x00, 0x00, 0x00, 0x02, // 1 by 2
            0x08, 0x06, 0x00, 0x00, 0x00, 0x99, 0x81, 0xB6, 0x27, //
            0x00, 0x00, 0x00, 0x15, 0x49, 0x44, 0x41, 0x54, // IDAT
            0x78, 0x01, 0x01, 0x0A, 0x00, 0xF5, 0xFF, // one stored block
            0x00, 0x01, 0x02, 0x03, 0x04, // the first row
            0x00, 0x05, 0x06, 0x07, 0x08, // the second row
            0x00, 0x8C, 0x00, 0x25, 0x79, 0x7D, 0x6B, 0xF1, // the checks
            0x00, 0x00, 0x00, 0x00, 0x49, 0x45, 0x4E, 0x44, // IEND
            0xAE, 0x42, 0x60, 0x82,
        ]
    );
}

#[test]
fn a_png_icon_holds_the_picture() {
    fn be32(b: &[u8]) -> usize {
        u32::from_be_bytes([b[0], b[1], b[2], b[3]]) as usize
    }
    // The largest takes more than one stored block.
    for size in [16u32, 256] {
        let png = png_file(size);
        assert_eq!(be32(&png[16..]), size as usize);
        assert_eq!(be32(&png[20..]), size as usize);
        let length = be32(&png[33..]);
        assert_eq!(&png[37..41], b"IDAT");
        assert_eq!(png.len(), 41 + length + 4 + 12);
        let mut blocks = &png[43..41 + length - 4];
        let mut rows: Vec<u8> = vec![];
        loop {
            let n = u16_at(blocks, 1);
            assert_eq!(u16_at(blocks, 3), !n);
            let last = blocks[0] == 1;
            rows.extend_from_slice(&blocks[5..5 + n as usize]);
            blocks = &blocks[5 + n as usize..];
            if last {
                break;
            }
        }
        assert!(blocks.is_empty());
        let mut picture: Vec<u8> = vec![];
        for row in rows.chunks(4 * size as usize + 1) {
            assert_eq!(row[0], 0);
            picture.extend_from_slice(&row[1..]);
        }
        assert_eq!(picture, pixels(size));
    }
}

#[test]
fn versions_become_numbers() {
    assert_eq!(version_numbers("1.2.3"), "1,2,3");
    assert_eq!(version_numbers("4.5-beta"), "4,5,0");
    assert_eq!(version_numbers("7"), "7,0,0");
}

#[test]
fn a_resource_script_escapes_what_it_quotes() {
    let rc = resource_script("C:\\out\\app.ico", "The \"app\"", "1.2.3");
    assert!(rc.starts_with("1 ICON \"C:\\\\out\\\\app.ico\"\n"), "{rc}");
    assert!(rc.contains("FILEVERSION 1,2,3,0\n"), "{rc}");
    assert!(rc.contains("VALUE \"FileDescription\", \"The \"\"app\"\"\"\n"), "{rc}");
    assert!(rc.contains("VALUE \"ProductVersion\", \"1.2.3\"\n"), "{rc}");
}
