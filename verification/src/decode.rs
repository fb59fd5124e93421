//! Decoding the names of entries.
//!
//! A narrow name is UTF-8 where it can be, else Windows-31J, else UTF-8 with
//! replacement characters and a warning. A wide name is UTF-16, else UTF-16
//! with replacement characters and a warning.

use crate::report::{log_warning, warning_models, Warning, WarningModel};
use encoding::codec::japanese::Windows31JEncoding;
use encoding::{DecoderTrap, Encoding};
use vstd::prelude::*;
use vstd::string::StringSliceAdditionalSpecFns;
use vstd::utf8::{decode_utf8, encode_utf8_decode_utf8, valid_utf8};

verus! {

/// The text that the Windows-31J decoder of the `encoding` crate gives for
/// `bytes` when it stops at the first error, or `None` where it stops.
pub uninterp spec fn windows31j_text(bytes: Seq<u8>) -> Option<Seq<char>>;

/// The text that `String::from_utf8_lossy` gives for `bytes`.
pub uninterp spec fn utf8_lossy_text(bytes: Seq<u8>) -> Seq<char>;

/// The first unit of a surrogate pair.
pub open spec fn is_high_surrogate(unit: u16) -> bool {
    0xd800 <= unit <= 0xdbff
}

/// The second unit of a surrogate pair.
pub open spec fn is_low_surrogate(unit: u16) -> bool {
    0xdc00 <= unit <= 0xdfff
}

/// The character that a surrogate pair stands for.
pub open spec fn surrogate_pair(high: u16, low: u16) -> char {
    (0x1_0000 + (high - 0xd800) * 0x400 + (low - 0xdc00)) as char
}

/// `first` before the text `rest`, where there is one.
pub open spec fn prepend(first: char, rest: Option<Seq<char>>) -> Option<Seq<char>> {
    match rest {
        Some(text) => Some(seq![first] + text),
        None => None,
    }
}

/// The text that `units` encode in UTF-16, or `None` where they are not
/// UTF-16. A unit that is no surrogate is a character by itself; a high
/// surrogate with a low surrogate behind it is the character of the pair;
/// any other surrogate is an error.
pub open spec fn utf16_text(units: Seq<u16>) -> Option<Seq<char>>
    decreases units.len(),
{
    if units.len() == 0 {
        Some(Seq::empty())
    } else if !is_high_surrogate(units[0]) && !is_low_surrogate(units[0]) {
        prepend(units[0] as char, utf16_text(units.skip(1)))
    } else if is_high_surrogate(units[0]) && units.len() >= 2 && is_low_surrogate(units[1]) {
        prepend(surrogate_pair(units[0], units[1]), utf16_text(units.skip(2)))
    } else {
        None
    }
}

/// The text that `String::from_utf16_lossy` gives for `units`.
pub uninterp spec fn utf16_lossy_text(units: Seq<u16>) -> Seq<char>;

/// Reads `bytes` as UTF-8 with `std::str::from_utf8`: the string whose UTF-8
/// encoding `bytes` is, or `None` where `bytes` is not valid UTF-8.
#[verifier::external_body]
fn utf8_strict(bytes: &[u8]) -> (text: Option<&str>)
    ensures
        text is Some <==> valid_utf8(bytes@),
        text matches Some(s) ==> s.spec_bytes() == bytes@,
{
    std::str::from_utf8(bytes).ok()
}

/// Decodes `bytes` with `Windows31JEncoding::decode` of the `encoding`
/// crate, which stops at the first error: the text, or `None` on an error.
#[verifier::external_body]
fn windows31j_strict(bytes: &[u8]) -> (text: Option<String>)
    ensures
        text matches Some(s) ==> windows31j_text(bytes@) == Some(s@),
        text is None ==> windows31j_text(bytes@) is None,
{
    Windows31JEncoding.decode(bytes, DecoderTrap::Strict).ok()
}

/// Reads `bytes` as UTF-8 with `String::from_utf8_lossy`, which puts a
/// replacement character in place of what is not UTF-8.
#[verifier::external_body]
fn utf8_lossy(bytes: &[u8]) -> (text: String)
    ensures
        text@ == utf8_lossy_text(bytes@),
{
    String::from_utf8_lossy(bytes).into_owned()
}

/// Reads `units` as UTF-16 with `String::from_utf16`: the text that they
/// encode, or `None` where they hold a surrogate that is not part of a pair.
#[verifier::external_body]
fn utf16_strict(units: &[u16]) -> (text: Option<String>)
    ensures
        text matches Some(s) ==> utf16_text(units@) == Some(s@),
        text is None ==> utf16_text(units@) is None,
{
    String::from_utf16(units).ok()
}

/// Reads `units` as UTF-16 with `String::from_utf16_lossy`, which puts a
/// replacement character in place of what is not UTF-16.
#[verifier::external_body]
fn utf16_lossy(units: &[u16]) -> (text: String)
    ensures
        text@ == utf16_lossy_text(units@),
{
    String::from_utf16_lossy(units)
}

/// A decoded name, and whether replacement characters stand in it for what could not be decoded.
pub struct DecodedName {
    pub text: Seq<char>,
    pub lossy: bool,
}

/// The text of a string that may be there.
pub open spec fn text_of(text: Option<String>) -> Option<Seq<char>> {
    match text {
        Some(s) => Some(s@),
        None => None,
    }
}

/// The text of a string slice that may be there.
pub open spec fn str_text_of(text: Option<&str>) -> Option<Seq<char>> {
    match text {
        Some(s) => Some(s@),
        None => None,
    }
}

/// The warnings that decoding a name gives.
pub open spec fn name_warnings(decoded: DecodedName, wide: bool) -> Seq<WarningModel> {
    if !decoded.lossy {
        Seq::empty()
    } else if wide {
        seq![WarningModel::UndecodableWideName { name: decoded.text }]
    } else {
        seq![WarningModel::UndecodableName { name: decoded.text }]
    }
}

/// How many bytes of `raw` stand before its first zero byte.
pub open spec fn nul_index(raw: Seq<u8>) -> int
    decreases raw.len(),
{
    if raw.len() == 0 || raw[0] == 0 {
        0
    } else {
        1 + nul_index(raw.skip(1))
    }
}

/// The bytes of `raw` before its first zero byte.
pub open spec fn until_nul(raw: Seq<u8>) -> Seq<u8> {
    raw.take(nul_index(raw))
}

/// The name chosen from what the decoders give: the UTF-8 text where there
/// is one, else the Windows-31J text where there is one, else the lossy text.
pub open spec fn chosen_name(strict: Option<Seq<char>>, legacy: Option<Seq<char>>, lossy: Seq<char>) -> DecodedName {
    match strict {
        Some(text) => DecodedName { text, lossy: false },
        None => match legacy {
            Some(text) => DecodedName { text, lossy: false },
            None => DecodedName { text: lossy, lossy: true },
        },
    }
}

/// The UTF-8 text of `bytes`, where they are valid UTF-8.
pub open spec fn utf8_text(bytes: Seq<u8>) -> Option<Seq<char>> {
    if valid_utf8(bytes) {
        Some(decode_utf8(bytes))
    } else {
        None
    }
}

/// The name that the bytes `raw` of a narrow name field stand for.
pub open spec fn narrow_name(raw: Seq<u8>) -> DecodedName {
    let bytes = until_nul(raw);
    chosen_name(utf8_text(bytes), windows31j_text(bytes), utf8_lossy_text(bytes))
}

/// The name that the code units `units` of a wide name field stand for.
pub open spec fn wide_name(units: Seq<u16>) -> DecodedName {
    match utf16_text(units) {
        Some(text) => DecodedName { text, lossy: false },
        None => DecodedName { text: utf16_lossy_text(units), lossy: true },
    }
}

/// The first zero byte of `raw` stands at `nul_index(raw)`, if there is one.
pub proof fn lemma_nul_index(raw: Seq<u8>)
    ensures
        0 <= nul_index(raw) <= raw.len(),
        forall|i: int| 0 <= i < nul_index(raw) ==> raw[i] != 0,
        nul_index(raw) < raw.len() ==> raw[nul_index(raw)] == 0,
    decreases raw.len(),
{
    if raw.len() > 0 && raw[0] != 0 {
        lemma_nul_index(raw.skip(1));
        assert forall|i: int| 0 <= i < nul_index(raw) implies raw[i] != 0 by {
            if i > 0 {
                assert(raw.skip(1)[i - 1] == raw[i]);
            }
        }
    }
}

/// A cut before which no byte is zero, and which is the end or a zero byte, is the first zero byte.
pub proof fn lemma_nul_index_is(raw: Seq<u8>, cut: int)
    requires
        0 <= cut <= raw.len(),
        forall|i: int| 0 <= i < cut ==> raw[i] != 0,
        cut < raw.len() ==> raw[cut] == 0,
    ensures
        nul_index(raw) == cut,
{
    lemma_nul_index(raw);
}

/// The name of an entry whose bytes are not valid UTF-8 and not Windows-31J
/// either: the lossy text, with a warning.
pub fn name_from_lossy(lossy: String, log: &mut Vec<Warning>) -> (name: String)
    ensures
        name@ == lossy@,
        warning_models(final(log)@) == warning_models(old(log)@).push(
            WarningModel::UndecodableName { name: lossy@ },
        ),
{
    log_warning(log, Warning::UndecodableName { name: lossy.clone() });
    lossy
}

/// The name of an entry whose bytes are not valid UTF-8, given what the
/// Windows-31J decoder made of them: its text, or else the lossy text of `bytes`.
pub fn name_from_legacy(legacy: Option<String>, bytes: &[u8], log: &mut Vec<Warning>) -> (name: String)
    ensures
        name@ == chosen_name(None, text_of(legacy), utf8_lossy_text(bytes@)).text,
        warning_models(final(log)@) == warning_models(old(log)@) + name_warnings(
            chosen_name(None, text_of(legacy), utf8_lossy_text(bytes@)),
            false,
        ),
{
    match legacy {
        Some(text) => {
            text
        },
        None => {
            let name = name_from_lossy(utf8_lossy(bytes), log);
            name
        },
    }
}

/// The name of an entry, given what reading its bytes as UTF-8 gave: that
/// text, or else what the Windows-31J decoder or the lossy reading makes of `bytes`.
pub fn name_from_utf8(strict: Option<&str>, bytes: &[u8], log: &mut Vec<Warning>) -> (name: String)
    ensures
        name@ == chosen_name(
            str_text_of(strict),
            windows31j_text(bytes@),
            utf8_lossy_text(bytes@),
        ).text,
        warning_models(final(log)@) == warning_models(old(log)@) + name_warnings(
            chosen_name(str_text_of(strict), windows31j_text(bytes@), utf8_lossy_text(bytes@)),
            false,
        ),
{
    match strict {
        Some(text) => {
            String::from_str(text)
        },
        None => {
            let legacy = windows31j_strict(bytes);
            name_from_legacy(legacy, bytes, log)
        },
    }
}

/// Decodes the bytes of a narrow name field. What follows the first zero
/// byte is left out.
pub fn decode_name(raw: &[u8], log: &mut Vec<Warning>) -> (name: String)
    ensures
        name@ == narrow_name(raw@).text,
        warning_models(final(log)@) == warning_models(old(log)@) + name_warnings(
            narrow_name(raw@),
            false,
        ),
{
    let mut cut: usize = 0;
    while cut < raw.len() && raw[cut] != 0
        invariant
            cut <= raw@.len(),
            forall|i: int| 0 <= i < cut ==> raw@[i] != 0,
        decreases raw@.len() - cut,
    {
        cut += 1;
    }
    proof {
        lemma_nul_index_is(raw@, cut as int);
    }
    let bytes = vstd::slice::slice_subrange(raw, 0, cut);
    let strict = utf8_strict(bytes);
    proof {
        if let Some(s) = strict {
            encode_utf8_decode_utf8(s@);
        }
    }
    name_from_utf8(strict, bytes, log)
}

/// The name of a wide name field, given what reading its code units as
/// UTF-16 gave: that text, or else the lossy reading of `units` with a warning.
pub fn wide_name_from_utf16(strict: Option<String>, units: &[u16], log: &mut Vec<Warning>) -> (name:
    String)
    ensures
        name@ == match strict {
            Some(s) => s@,
            None => utf16_lossy_text(units@),
        },
        warning_models(final(log)@) == warning_models(old(log)@) + match strict {
            Some(s) => Seq::empty(),
            None => seq![WarningModel::UndecodableWideName { name: utf16_lossy_text(units@) }],
        },
{
    match strict {
        Some(text) => {
            text
        },
        None => {
            let lossy = utf16_lossy(units);
            log_warning(log, Warning::UndecodableWideName { name: lossy.clone() });
            lossy
        },
    }
}

/// Decodes the code units of a wide name field.
pub fn decode_wide_name(units: &[u16], log: &mut Vec<Warning>) -> (name: String)
    ensures
        name@ == wide_name(units@).text,
        warning_models(final(log)@) == warning_models(old(log)@) + name_warnings(
            wide_name(units@),
            true,
        ),
{
    let strict = utf16_strict(units);
    wide_name_from_utf16(strict, units, log)
}

} // verus!
