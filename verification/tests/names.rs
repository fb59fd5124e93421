use dnh_extract::names::{forbidden, numbered_name, reserved};
use dnh_extract::output::{normalize_path, validate_filename};
use dnh_extract::text::{decimal_chars, to_ascii_upper, white_space};

fn chars(s: &str) -> Vec<char> {
    s.chars().collect()
}

#[test]
fn safe_name_is_kept() {
    assert_eq!(validate_filename("test.txt"), "test.txt");
    assert_eq!(validate_filename("a b.c"), "a b.c");
}

#[test]
fn surrounding_white_space_is_trimmed() {
    assert_eq!(validate_filename("  a.txt \t\n"), "a.txt");
    assert_eq!(validate_filename("\u{3000}a\u{a0}"), "a");
}

#[test]
fn trailing_periods_are_removed() {
    assert_eq!(validate_filename("a..."), "a");
    assert_eq!(validate_filename("a.b."), "a.b");
    assert_eq!(validate_filename(".a"), ".a");
}

#[test]
fn forbidden_characters_become_underscores() {
    assert_eq!(validate_filename("a<b>c:d\"e/f\\g|h?i*j"), "a_b_c_d_e_f_g_h_i_j");
    assert_eq!(validate_filename("a\u{0}b\u{1f}c\u{7}d"), "a_b_c_d");
    assert_eq!(validate_filename("a\u{20}b\u{7f}"), "a b\u{7f}");
}

#[test]
fn reserved_names_get_an_underscore() {
    assert_eq!(validate_filename("con"), "con_");
    assert_eq!(validate_filename("CON"), "CON_");
    assert_eq!(validate_filename("Prn"), "Prn_");
    assert_eq!(validate_filename("aux"), "aux_");
    assert_eq!(validate_filename("nul"), "nul_");
    assert_eq!(validate_filename("com1"), "com1_");
    assert_eq!(validate_filename("COM9"), "COM9_");
    assert_eq!(validate_filename("lpt1"), "lpt1_");
    assert_eq!(validate_filename("LPT8"), "LPT8_");
}

#[test]
fn reserved_name_is_found_after_trimming() {
    assert_eq!(validate_filename(" con "), "con_");
    assert_eq!(validate_filename("con."), "con_");
    assert_eq!(validate_filename("nul..."), "nul_");
}

#[test]
fn near_reserved_names_are_kept() {
    assert_eq!(validate_filename("con.txt"), "con.txt");
    assert_eq!(validate_filename("com0"), "com0");
    assert_eq!(validate_filename("lpt9"), "lpt9");
    assert_eq!(validate_filename("com10"), "com10");
    assert_eq!(validate_filename("console"), "console");
}

#[test]
fn empty_names_get_the_placeholder() {
    assert_eq!(validate_filename(""), "no_name");
    assert_eq!(validate_filename("   "), "no_name");
    assert_eq!(validate_filename("."), "no_name");
    assert_eq!(validate_filename(".."), "no_name");
    assert_eq!(validate_filename(" ... "), "no_name");
}

#[test]
fn white_space_and_periods_at_the_end_are_removed_together() {
    assert_eq!(validate_filename("a ."), "a");
    assert_eq!(validate_filename("abcde ."), "abcde");
    assert_eq!(validate_filename("a. . ."), "a");
    assert_eq!(validate_filename("a .\t.\u{3000}"), "a");
    assert_eq!(validate_filename("a.b . c . "), "a.b . c");
    assert_eq!(validate_filename(" . a"), ". a");
    assert_eq!(validate_filename(". ."), "no_name");
    assert_eq!(validate_filename("con ."), "con_");
    assert_eq!(validate_filename("nul. ."), "nul_");
}

fn awkward_names() -> Vec<&'static str> {
    vec![
        "", " ", ".", "..", "con", "a<b", "x\u{1}y", "  lpt3.. ", "\t\\\t", "no_name", "a .", "?",
        "tab\there", "日本語.txt", " \u{2003}wide\u{2003} ", "abcde .", "a. . .", " . ", ". a .",
        "a\u{a0}.", "prn .", " aux. .\t", "x.\u{2028}.", "\u{85}", "a \u{1}", "a\u{1} .",
        "_", "a_", "con_", "name.", " x ", ".hidden", ". .x",
    ]
}

#[test]
fn sanitized_names_are_safe() {
    for input in awkward_names() {
        let safe = validate_filename(input);
        assert!(!safe.is_empty());
        assert!(safe.chars().all(|c| !forbidden(c)));
        assert!(!reserved(&chars(&safe)));
        assert!(!safe.starts_with(char::is_whitespace));
        assert!(!safe.ends_with(char::is_whitespace));
        assert_eq!(safe, safe.trim());
        assert!(!safe.ends_with('.'));
    }
}

#[test]
fn sanitizing_twice_changes_nothing() {
    for input in awkward_names() {
        let once = validate_filename(input);
        assert_eq!(validate_filename(&once), once);
    }
}

#[test]
fn sanitizing_twice_changes_nothing_for_short_names() {
    let alphabet = [' ', '.', 'a', 'C', 'o', 'n', '_', '?', '\t', '\u{3000}'];
    for &a in alphabet.iter() {
        for &b in alphabet.iter() {
            for &c in alphabet.iter() {
                for &d in alphabet.iter() {
                    let name: String = [a, b, c, d].iter().collect();
                    let once = validate_filename(&name);
                    assert_eq!(validate_filename(&once), once);
                    assert_eq!(once, once.trim());
                    assert!(!once.ends_with('.'));
                }
            }
        }
    }
}

#[test]
fn forbidden_set_is_exact() {
    for code in 0u32..0x250 {
        let c = char::from_u32(code).unwrap();
        let expected = code < 0x20 || "<>:\"/\\|?*".contains(c);
        assert_eq!(forbidden(c), expected);
    }
}

#[test]
fn reserved_set_is_exact() {
    let table = [
        ".", "..", "CON", "PRN", "AUX", "NUL", "COM1", "COM2", "COM3", "COM4", "COM5", "COM6",
        "COM7", "COM8", "COM9", "LPT1", "LPT2", "LPT3", "LPT4", "LPT5", "LPT6", "LPT7", "LPT8",
    ];
    for name in table.iter() {
        assert!(reserved(&chars(name)));
        assert!(reserved(&chars(&name.to_lowercase())));
    }
    for name in ["", "CO", "CONN", "COM", "COM0", "LPT0", "LPT9", "...", "NUL_", "ＣＯＮ"].iter() {
        assert!(!reserved(&chars(name)));
    }
}

#[test]
fn white_space_agrees_with_the_standard_library() {
    for code in 0u32..=0x10ffff {
        if let Some(c) = char::from_u32(code) {
            assert_eq!(white_space(c), c.is_whitespace());
        }
    }
}

#[test]
fn upper_case_agrees_with_the_standard_library() {
    for code in 0u32..=0x10ffff {
        if let Some(c) = char::from_u32(code) {
            assert_eq!(to_ascii_upper(c), c.to_ascii_uppercase());
        }
    }
}

#[test]
fn path_is_split_at_both_separators() {
    assert_eq!(normalize_path("a/b//c\\d"), vec!["a", "b", "c", "d"]);
}

#[test]
fn blank_path_has_no_segments() {
    assert_eq!(normalize_path("   "), Vec::<String>::new());
    assert_eq!(normalize_path(""), Vec::<String>::new());
    assert_eq!(normalize_path("/"), Vec::<String>::new());
    assert_eq!(normalize_path(" / \\ \t "), Vec::<String>::new());
}

#[test]
fn path_segments_keep_their_white_space() {
    assert_eq!(normalize_path(" a /b c/ "), vec![" a ", "b c"]);
    assert_eq!(normalize_path("/lead/trail/"), vec!["lead", "trail"]);
    assert_eq!(normalize_path("single"), vec!["single"]);
    assert_eq!(normalize_path("..\\x"), vec!["..", "x"]);
}

#[test]
fn decimal_digits_are_exact() {
    assert_eq!(decimal_chars(0), chars("0"));
    assert_eq!(decimal_chars(7), chars("7"));
    assert_eq!(decimal_chars(10), chars("10"));
    assert_eq!(decimal_chars(1234567890), chars("1234567890"));
    assert_eq!(decimal_chars(u128::MAX), chars("340282366920938463463374607431768211455"));
}

#[test]
fn numbered_names_are_exact() {
    assert_eq!(numbered_name("base", 2), "base_2");
    assert_eq!(numbered_name("", 10), "_10");
    assert_eq!(numbered_name("a_extracted", 123), "a_extracted_123");
}
