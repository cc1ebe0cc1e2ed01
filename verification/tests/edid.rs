use desktop_switcher::edid::{parse, EdidError};

const HEADER: [u8; 8] = [0x00, 0xFF, 0xFF, 0xFF, 0xFF, 0xFF, 0xFF, 0x00];
const TAG_SERIAL: u8 = 0xFF;
const TAG_NAME: u8 = 0xFC;

/// Build a synthetic but structurally valid EDID.
fn synth(serial: Option<&str>, name: Option<&str>, bin_serial: u32) -> Vec<u8> {
    let mut e = vec![0u8; 128];
    e[..8].copy_from_slice(&HEADER);
    // "AOC" = A=1, O=15, C=3 -> (1<<10)|(15<<5)|3
    let packed: u16 = (1 << 10) | (15 << 5) | 3;
    e[8..10].copy_from_slice(&packed.to_be_bytes());
    e[10..12].copy_from_slice(&0x2702u16.to_le_bytes());
    e[12..16].copy_from_slice(&bin_serial.to_le_bytes());
    e[16] = 41;
    e[17] = 33; // 2023

    let mut write_desc = |off: usize, tag: u8, text: &str| {
        e[off] = 0;
        e[off + 1] = 0;
        e[off + 2] = 0;
        e[off + 3] = tag;
        e[off + 4] = 0;
        let bytes = text.as_bytes();
        for i in 0..13 {
            e[off + 5 + i] = if i < bytes.len() {
                bytes[i]
            } else if i == bytes.len() {
                0x0A
            } else {
                0x20
            };
        }
    };
    if let Some(s) = serial {
        write_desc(54, TAG_SERIAL, s);
    }
    if let Some(n) = name {
        write_desc(72, TAG_NAME, n);
    }
    e
}

#[test]
fn reads_identity_fields() {
    let edid = synth(Some("ASFPA9A001109"), Some("27P2DG5"), 0);
    let info = parse(&edid).unwrap();
    assert_eq!(info.manufacturer.as_deref(), Some("AOC"));
    assert_eq!(info.model_name.as_deref(), Some("27P2DG5"));
    assert_eq!(info.serial_text.as_deref(), Some("ASFPA9A001109"));
    assert_eq!(info.manufacture_year, Some(2023));
    assert_eq!(info.manufacture_week, Some(41));
    assert_eq!(info.best_serial().as_deref(), Some("ASFPA9A001109"));
}

#[test]
fn falls_back_to_binary_serial_then_gives_up() {
    let with_bin = parse(&synth(None, Some("27P2DG5"), 0xDEADBEEF)).unwrap();
    assert_eq!(with_bin.best_serial().as_deref(), Some("bin:DEADBEEF"));

    // No usable serial at all must stay None so the ambiguity path runs.
    let none = parse(&synth(None, Some("27P2DG5"), 0)).unwrap();
    assert_eq!(none.best_serial(), None);
}

#[test]
fn placeholder_zero_serial_is_not_treated_as_a_serial() {
    let info = parse(&synth(Some("0"), Some("NE16NZH"), 0)).unwrap();
    assert_eq!(info.best_serial(), None);
}

#[test]
fn rejects_short_and_headerless_blocks() {
    assert_eq!(parse(&[0u8; 12]).unwrap_err(), EdidError::TooShort(12));
    assert_eq!(parse(&[0xAAu8; 128]).unwrap_err(), EdidError::BadHeader);
}

#[test]
fn errors_of_a_block_are_told() {
    assert!(EdidError::TooShort(12).to_string().contains("12"));
    assert!(!EdidError::BadHeader.to_string().is_empty());
}

#[test]
fn the_product_code_is_read_low_byte_first() {
    let info = parse(&synth(None, None, 7)).unwrap();
    assert_eq!(info.product_code, 0x2702);
    assert_eq!(info.serial_binary, 7);
    assert_eq!(info.best_serial().as_deref(), Some("bin:00000007"));
}
