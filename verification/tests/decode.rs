use dnh_extract::decode::{
    decode_name, decode_wide_name, name_from_legacy, name_from_lossy, name_from_utf8,
    wide_name_from_utf16,
};
use dnh_extract::report::Warning;

#[test]
fn utf8_name_is_decoded() {
    let mut log = Vec::new();
    assert_eq!(decode_name(b"test.txt", &mut log), "test.txt");
    assert_eq!(decode_name("日本語".as_bytes(), &mut log), "日本語");
    assert_eq!(decode_name(b"", &mut log), "");
    assert!(log.is_empty());
}

#[test]
fn name_ends_at_the_first_zero_byte() {
    let mut log = Vec::new();
    assert_eq!(decode_name(b"abc\0def", &mut log), "abc");
    assert_eq!(decode_name(b"abc\0\0\0", &mut log), "abc");
    assert_eq!(decode_name(b"\0abc", &mut log), "");
    assert_eq!(decode_name(b"a\0\xff\xff", &mut log), "a");
    assert!(log.is_empty());
}

#[test]
fn legacy_name_is_decoded() {
    let mut log = Vec::new();
    let raw = [0x83u8, 0x65, 0x83, 0x58, 0x83, 0x67, 0x2e, 0x74, 0x78, 0x74];
    assert_eq!(decode_name(&raw, &mut log), "テスト.txt");
    let half_width = [0xb1u8, 0xb2];
    assert_eq!(decode_name(&half_width, &mut log), "ｱｲ");
    assert!(log.is_empty());
}

#[test]
fn undecodable_name_is_replaced_with_a_warning() {
    let mut log = Vec::new();
    let raw = [0x41u8, 0xff, 0x42];
    assert_eq!(decode_name(&raw, &mut log), "A\u{fffd}B");
    assert_eq!(log, vec![Warning::UndecodableName { name: "A\u{fffd}B".to_string() }]);
    let cut_short = [0x83u8];
    assert_eq!(decode_name(&cut_short, &mut log), "\u{fffd}");
    assert_eq!(log.len(), 2);
    assert_eq!(log[1], Warning::UndecodableName { name: "\u{fffd}".to_string() });
}

#[test]
fn fallback_order_is_kept() {
    let mut log = Vec::new();
    assert_eq!(name_from_utf8(Some("strict"), b"ignored", &mut log), "strict");
    assert_eq!(name_from_legacy(Some("legacy".to_string()), b"ignored", &mut log), "legacy");
    assert!(log.is_empty());
    assert_eq!(name_from_legacy(None, b"a\xffb", &mut log), "a\u{fffd}b");
    assert_eq!(log, vec![Warning::UndecodableName { name: "a\u{fffd}b".to_string() }]);
    assert_eq!(name_from_lossy("given".to_string(), &mut log), "given");
    assert_eq!(log[1], Warning::UndecodableName { name: "given".to_string() });
    assert_eq!(name_from_utf8(None, &[0x83, 0x65], &mut log), "テ");
    assert_eq!(log.len(), 2);
}

#[test]
fn wide_name_is_decoded() {
    let mut log = Vec::new();
    assert_eq!(decode_wide_name(&[0x73, 0x75, 0x62], &mut log), "sub");
    assert_eq!(decode_wide_name(&[0x65e5, 0x672c], &mut log), "日本");
    assert_eq!(decode_wide_name(&[0xd83d, 0xde00], &mut log), "\u{1f600}");
    assert_eq!(decode_wide_name(&[], &mut log), "");
    assert_eq!(decode_wide_name(&[0x61, 0, 0x62], &mut log), "a\0b");
    assert!(log.is_empty());
}

#[test]
fn undecodable_wide_name_is_replaced_with_a_warning() {
    let mut log = Vec::new();
    assert_eq!(decode_wide_name(&[0xd800, 0x41], &mut log), "\u{fffd}A");
    assert_eq!(log, vec![Warning::UndecodableWideName { name: "\u{fffd}A".to_string() }]);
    assert_eq!(wide_name_from_utf16(Some("ok".to_string()), &[0xd800], &mut log), "ok");
    assert_eq!(log.len(), 1);
    assert_eq!(wide_name_from_utf16(None, &[0x41, 0xdc00], &mut log), "A\u{fffd}");
    assert_eq!(log[1], Warning::UndecodableWideName { name: "A\u{fffd}".to_string() });
}

/// UTF-16 by the book: a unit that is no surrogate is a character, a high
/// surrogate with a low one behind it is the character of the pair, and any
/// other surrogate is an error.
fn utf16_by_the_book(units: &[u16]) -> Option<String> {
    let mut text = String::new();
    let mut i = 0;
    while i < units.len() {
        let unit = units[i] as u32;
        if !(0xd800..=0xdfff).contains(&unit) {
            text.push(char::from_u32(unit).unwrap());
            i += 1;
        } else if unit <= 0xdbff && i + 1 < units.len() && (0xdc00..=0xdfff).contains(&units[i + 1]) {
            let low = units[i + 1] as u32;
            text.push(char::from_u32(0x1_0000 + (unit - 0xd800) * 0x400 + (low - 0xdc00)).unwrap());
            i += 2;
        } else {
            return None;
        }
    }
    Some(text)
}

fn check_against_the_book(units: &[u16]) {
    let mut log = Vec::new();
    let name = decode_wide_name(units, &mut log);
    match utf16_by_the_book(units) {
        Some(text) => {
            assert_eq!(name, text);
            assert!(log.is_empty());
        }
        None => {
            assert_eq!(log, vec![Warning::UndecodableWideName { name: name.clone() }]);
            assert!(name.contains('\u{fffd}'));
        }
    }
}

#[test]
fn every_single_unit_is_decoded_by_the_book() {
    for unit in 0..=0xffffu16 {
        check_against_the_book(&[unit]);
    }
}

#[test]
fn every_surrogate_pair_is_decoded_by_the_book() {
    for high in 0xd800..=0xdbffu16 {
        for low in 0xdc00..=0xdfffu16 {
            check_against_the_book(&[high, low]);
        }
    }
}

#[test]
fn short_sequences_are_decoded_by_the_book() {
    let units = [0x0000u16, 0x0041, 0xd7ff, 0xd800, 0xdbff, 0xdc00, 0xdfff, 0xe000, 0xffff];
    for &a in units.iter() {
        for &b in units.iter() {
            check_against_the_book(&[a, b]);
            for &c in units.iter() {
                check_against_the_book(&[a, b, c]);
                for &d in units.iter() {
                    check_against_the_book(&[a, b, c, d]);
                }
            }
        }
    }
}
