//! What a safe output name is: the rules for single names, for directory
//! paths, and for telling colliding names apart.

use crate::text::{
    ascii_upper_seq, chars_match, decimal, decimal_chars, is_blank, is_white_space,
    lemma_decimal_injective, lemma_trim_start, push_char, to_ascii_upper, trim_start,
};
use vstd::hash_set::StringHashSet;
use vstd::prelude::*;

verus! {

/// Characters that may not occur in an output name: the control characters
/// and the punctuation that file systems reserve.
pub open spec fn is_forbidden(c: char) -> bool {
    ||| (c as u32) < 0x20
    ||| c == '<'
    ||| c == '>'
    ||| c == ':'
    ||| c == '"'
    ||| c == '/'
    ||| c == '\\'
    ||| c == '|'
    ||| c == '?'
    ||| c == '*'
}

/// The character that stands for `c` in an output name.
pub open spec fn replace_forbidden(c: char) -> char {
    if is_forbidden(c) {
        '_'
    } else {
        c
    }
}

/// The names that the file system keeps for itself, in upper case.
pub open spec fn reserved_names() -> Seq<Seq<char>> {
    seq![
        "."@,
        ".."@,
        "CON"@,
        "PRN"@,
        "AUX"@,
        "NUL"@,
        "COM1"@,
        "COM2"@,
        "COM3"@,
        "COM4"@,
        "COM5"@,
        "COM6"@,
        "COM7"@,
        "COM8"@,
        "COM9"@,
        "LPT1"@,
        "LPT2"@,
        "LPT3"@,
        "LPT4"@,
        "LPT5"@,
        "LPT6"@,
        "LPT7"@,
        "LPT8"@,
    ]
}

/// A name is reserved when it equals a reserved name, letter case aside.
pub open spec fn is_reserved(s: Seq<char>) -> bool {
    reserved_names().contains(ascii_upper_seq(s))
}

/// The name used where nothing is left of a name.
pub open spec fn placeholder() -> Seq<char> {
    "no_name"@
}

/// Characters that a name does not end with: white space and the period.
pub open spec fn is_trailing(c: char) -> bool {
    is_white_space(c) || c == '.'
}

/// `s` without the white space and the periods at its end, in whatever order they stand there.
pub open spec fn strip_end(s: Seq<char>) -> Seq<char>
    decreases s.len(),
{
    if s.len() > 0 && is_trailing(s.last()) {
        strip_end(s.drop_last())
    } else {
        s
    }
}

/// The part of `name` that is kept: the white space at its start and the
/// white space and periods at its end removed.
pub open spec fn name_core(name: Seq<char>) -> Seq<char> {
    strip_end(trim_start(name))
}

/// The safe form of `name`: its core with every forbidden character replaced
/// by `_`, a `_` appended where that is a reserved name, and the placeholder
/// where it is empty.
pub open spec fn sanitize(name: Seq<char>) -> Seq<char> {
    let mapped = name_core(name).map_values(|c: char| replace_forbidden(c));
    let escaped = if is_reserved(mapped) {
        mapped.push('_')
    } else {
        mapped
    };
    if escaped.len() == 0 {
        placeholder()
    } else {
        escaped
    }
}

/// Reveals what the reserved names and the placeholder hold.
pub proof fn lemma_reserved_names()
    ensures
        reserved_names().len() == 23,
        forall|i: int|
            0 <= i < 23 ==> 1 <= (#[trigger] reserved_names()[i]).len() <= 4
                && reserved_names()[i].last() != '_',
        placeholder() == seq!['n', 'o', '_', 'n', 'a', 'm', 'e'],
{
    reveal_strlit(".");
    reveal_strlit("..");
    reveal_strlit("CON");
    reveal_strlit("PRN");
    reveal_strlit("AUX");
    reveal_strlit("NUL");
    reveal_strlit("COM1");
    reveal_strlit("COM2");
    reveal_strlit("COM3");
    reveal_strlit("COM4");
    reveal_strlit("COM5");
    reveal_strlit("COM6");
    reveal_strlit("COM7");
    reveal_strlit("COM8");
    reveal_strlit("COM9");
    reveal_strlit("LPT1");
    reveal_strlit("LPT2");
    reveal_strlit("LPT3");
    reveal_strlit("LPT4");
    reveal_strlit("LPT5");
    reveal_strlit("LPT6");
    reveal_strlit("LPT7");
    reveal_strlit("LPT8");
    reveal_strlit("no_name");
}

/// A reserved name is short and does not end with `_`.
pub proof fn lemma_reserved_shape(s: Seq<char>)
    requires
        is_reserved(s),
    ensures
        1 <= s.len() <= 4,
        s.last() != '_',
{
    lemma_reserved_names();
}

/// White space and periods removed from the end leave a prefix that is
/// empty or ends with another character.
pub proof fn lemma_strip_end(s: Seq<char>)
    ensures
        strip_end(s).len() <= s.len(),
        strip_end(s) == s.take(strip_end(s).len() as int),
        strip_end(s).len() > 0 ==> !is_trailing(strip_end(s).last()),
    decreases s.len(),
{
    if s.len() > 0 && is_trailing(s.last()) {
        lemma_strip_end(s.drop_last());
    }
}

/// The core of a name is empty, or it starts with a character that is no
/// white space and ends with one that is neither white space nor a period.
pub proof fn lemma_name_core(name: Seq<char>)
    ensures
        name_core(name).len() > 0 ==> !is_white_space(name_core(name)[0]),
        name_core(name).len() > 0 ==> !is_trailing(name_core(name).last()),
{
    lemma_trim_start(name);
    lemma_strip_end(trim_start(name));
}

/// A name that starts with no white space and ends with neither white space
/// nor a period is its own core.
pub proof fn lemma_core_of_trimmed(name: Seq<char>)
    requires
        name.len() > 0,
        !is_white_space(name[0]),
        !is_trailing(name.last()),
    ensures
        name_core(name) == name,
{
}

/// What holds of every sanitized name: it is not empty, holds no forbidden
/// character (so no control character), is no reserved name in any letter
/// case, neither starts nor ends with white space, and does not end with a period.
pub proof fn lemma_sanitize_is_safe(name: Seq<char>)
    ensures
        sanitize(name).len() > 0,
        forall|i: int| 0 <= i < sanitize(name).len() ==> !is_forbidden(#[trigger] sanitize(name)[i]),
        !is_reserved(sanitize(name)),
        !is_white_space(sanitize(name)[0]),
        !is_white_space(sanitize(name).last()),
        sanitize(name).last() != '.',
{
    lemma_reserved_names();
    lemma_name_core(name);
}

/// A sanitized name is safe as it stands: sanitizing it again changes nothing.
pub proof fn lemma_sanitize_idempotent(name: Seq<char>)
    ensures
        sanitize(sanitize(name)) == sanitize(name),
{
    let safe = sanitize(name);
    lemma_sanitize_is_safe(name);
    lemma_core_of_trimmed(safe);
    assert(safe.map_values(|c: char| replace_forbidden(c)) =~= safe);
}

/// Tells whether `c` may not occur in an output name.
pub fn forbidden(c: char) -> (b: bool)
    ensures
        b == is_forbidden(c),
{
    let n: u32 = c as u32;
    n < 0x20 || c == '<' || c == '>' || c == ':' || c == '"' || c == '/' || c == '\\' || c == '|'
        || c == '?' || c == '*'
}

/// Tells whether `name` is a reserved name, letter case aside.
pub fn reserved(name: &Vec<char>) -> (b: bool)
    ensures
        b == is_reserved(name@),
{
    let mut upper: Vec<char> = Vec::new();
    let mut i: usize = 0;
    while i < name.len()
        invariant
            i <= name@.len(),
            upper@ == ascii_upper_seq(name@.take(i as int)),
        decreases name@.len() - i,
    {
        upper.push(to_ascii_upper(name[i]));
        i += 1;
    }
    assert(name@.take(name@.len() as int) == name@);
    let b = chars_match(&upper, ".") || chars_match(&upper, "..") || chars_match(&upper, "CON")
        || chars_match(&upper, "PRN") || chars_match(&upper, "AUX") || chars_match(&upper, "NUL")
        || chars_match(&upper, "COM1") || chars_match(&upper, "COM2") || chars_match(
        &upper,
        "COM3",
    ) || chars_match(&upper, "COM4") || chars_match(&upper, "COM5") || chars_match(&upper, "COM6")
        || chars_match(&upper, "COM7") || chars_match(&upper, "COM8") || chars_match(
        &upper,
        "COM9",
    ) || chars_match(&upper, "LPT1") || chars_match(&upper, "LPT2") || chars_match(&upper, "LPT3")
        || chars_match(&upper, "LPT4") || chars_match(&upper, "LPT5") || chars_match(
        &upper,
        "LPT6",
    ) || chars_match(&upper, "LPT7") || chars_match(&upper, "LPT8");
    b
}

/// The two characters that separate the directories of a path.
pub open spec fn is_separator(c: char) -> bool {
    c == '/' || c == '\\'
}

/// The pieces of `path` between its separators, empty ones included. There
/// is always at least one piece.
pub open spec fn segments(path: Seq<char>) -> Seq<Seq<char>>
    decreases path.len(),
{
    if path.len() == 0 {
        seq![Seq::empty()]
    } else {
        let before = segments(path.drop_last());
        if is_separator(path.last()) {
            before.push(Seq::empty())
        } else {
            before.drop_last().push(before.last().push(path.last()))
        }
    }
}

/// The test that a path segment passes when it is kept.
pub open spec fn not_blank() -> spec_fn(Seq<char>) -> bool {
    |s: Seq<char>| !is_blank(s)
}

/// The directories that `path` names: its segments in order, without the blank ones.
pub open spec fn normalize(path: Seq<char>) -> Seq<Seq<char>> {
    segments(path).filter(not_blank())
}

/// No directory of a normalized path is blank, so none is empty.
pub proof fn lemma_normalize_not_blank(path: Seq<char>)
    ensures
        forall|i: int|
            0 <= i < normalize(path).len() ==> !is_blank(#[trigger] normalize(path)[i])
                && normalize(path)[i].len() > 0,
{
}

/// `base` with the number `k` behind it: `base_k`.
pub open spec fn numbered(base: Seq<char>, k: nat) -> Seq<char> {
    base + seq!['_'] + decimal(k)
}

/// `k` is the first number from 2 on for which `base_k` is not taken.
pub open spec fn is_first_free(taken: Set<Seq<char>>, base: Seq<char>, k: nat) -> bool {
    &&& k >= 2
    &&& !taken.contains(numbered(base, k))
    &&& forall|j: nat| 2 <= j < k ==> taken.contains(#[trigger] numbered(base, j))
}

/// The first number from 2 on for which `base_k` is not taken.
pub open spec fn first_free(taken: Set<Seq<char>>, base: Seq<char>) -> nat {
    choose|k: nat| is_first_free(taken, base, k)
}

/// The name under which `base` is written beside the names in `taken`:
/// `base` itself where it is free, else `base_k` for the first free `k`.
pub open spec fn unique_name(taken: Set<Seq<char>>, base: Seq<char>) -> Seq<char> {
    if taken.contains(base) {
        numbered(base, first_free(taken, base))
    } else {
        base
    }
}

/// The names `base_2` .. `base_(k-1)`.
pub open spec fn numbered_below(base: Seq<char>, k: nat) -> Set<Seq<char>>
    decreases k,
{
    if k <= 2 {
        Set::empty()
    } else {
        numbered_below(base, (k - 1) as nat).insert(numbered(base, (k - 1) as nat))
    }
}

/// Different numbers give different names.
pub proof fn lemma_numbered_injective(base: Seq<char>, a: nat, b: nat)
    requires
        numbered(base, a) == numbered(base, b),
    ensures
        a == b,
{
    let prefix = base + seq!['_'];
    assert(numbered(base, a).skip(prefix.len() as int) =~= decimal(a));
    assert(numbered(base, b).skip(prefix.len() as int) =~= decimal(b));
    lemma_decimal_injective(a, b);
}

/// A numbered name is longer than its base, so it differs from it.
pub proof fn lemma_numbered_differs(base: Seq<char>, k: nat)
    ensures
        numbered(base, k) != base,
        numbered(base, k).len() > base.len(),
{
}

/// There are `k - 2` names `base_2` .. `base_(k-1)`.
pub proof fn lemma_numbered_below(base: Seq<char>, k: nat)
    ensures
        numbered_below(base, k).finite(),
        k >= 2 ==> numbered_below(base, k).len() == k - 2,
        forall|s: Seq<char>|
            numbered_below(base, k).contains(s) <==> exists|j: nat|
                2 <= j < k && s == #[trigger] numbered(base, j),
    decreases k,
{
    if k > 2 {
        let k1 = (k - 1) as nat;
        lemma_numbered_below(base, k1);
        let below = numbered_below(base, k1);
        if below.contains(numbered(base, k1)) {
            let j = choose|j: nat| 2 <= j < k1 && numbered(base, k1) == #[trigger] numbered(base, j);
            lemma_numbered_injective(base, k1, j);
        }
    }
}

/// Where `base_2` .. `base_(k-1)` are all taken, at least `k - 2` names are taken.
pub proof fn lemma_taken_bound(taken: Set<Seq<char>>, base: Seq<char>, k: nat)
    requires
        taken.finite(),
        k >= 2,
        forall|j: nat| 2 <= j < k ==> taken.contains(#[trigger] numbered(base, j)),
    ensures
        k - 2 <= taken.len(),
{
    lemma_numbered_below(base, k);
    let below = numbered_below(base, k);
    vstd::set_lib::lemma_len_subset(below, taken);
}

/// Among finitely many taken names there is a first free number, and from `k` on
/// where all smaller ones are taken.
pub proof fn lemma_first_free_from(taken: Set<Seq<char>>, base: Seq<char>, k: nat)
    requires
        taken.finite(),
        k >= 2,
        forall|j: nat| 2 <= j < k ==> taken.contains(#[trigger] numbered(base, j)),
    ensures
        is_first_free(taken, base, first_free(taken, base)),
        first_free(taken, base) >= k,
    decreases taken.len() + 2 - k,
{
    if !taken.contains(numbered(base, k)) {
        lemma_first_free_unique(taken, base, k, first_free(taken, base));
    } else {
        lemma_taken_bound(taken, base, k + 1);
        lemma_first_free_from(taken, base, k + 1);
    }
}

/// The first free number is determined.
pub proof fn lemma_first_free_unique(taken: Set<Seq<char>>, base: Seq<char>, a: nat, b: nat)
    requires
        is_first_free(taken, base, a),
        is_first_free(taken, base, b),
    ensures
        a == b,
{
}

/// The name chosen beside finitely many taken names is not one of them.
pub proof fn lemma_unique_name_is_free(taken: Set<Seq<char>>, base: Seq<char>)
    requires
        taken.finite(),
    ensures
        !taken.contains(unique_name(taken, base)),
        taken.contains(base) ==> is_first_free(taken, base, first_free(taken, base)),
{
    if taken.contains(base) {
        lemma_first_free_from(taken, base, 2);
    }
}

/// The string `base_k`.
pub fn numbered_name(base: &str, k: u128) -> (name: String)
    ensures
        name@ == numbered(base@, k as nat),
{
    let mut name = String::from_str(base);
    push_char(&mut name, '_');
    let digits = decimal_chars(k);
    let mut i: usize = 0;
    while i < digits.len()
        invariant
            i <= digits@.len(),
            name@ == base@ + seq!['_'] + digits@.take(i as int),
        decreases digits@.len() - i,
    {
        push_char(&mut name, digits[i]);
        i += 1;
    }
    name
}

/// Chooses the name under which `base` is written beside the names in
/// `taken`: `base` itself where it is free, else `base_2`, `base_3`, ... for
/// the first number that gives a free name.
pub fn pick_unused(taken: &StringHashSet, base: String) -> (name: String)
    requires
        taken@.finite(),
    ensures
        name@ == unique_name(taken@, base@),
        !taken@.contains(name@),
        name@ != base@ ==> is_first_free(taken@, base@, first_free(taken@, base@)),
{
    if !taken.contains(base.as_str()) {
        return base;
    }
    let size: usize = taken.len();
    let mut k: u128 = 2;
    loop
        invariant
            taken@.finite(),
            taken@.len() == size,
            taken@.contains(base@),
            k >= 2,
            forall|j: nat| 2 <= j < k ==> taken@.contains(#[trigger] numbered(base@, j)),
        decreases taken@.len() + 2 - k,
    {
        let candidate = numbered_name(base.as_str(), k);
        if !taken.contains(candidate.as_str()) {
            proof {
                lemma_first_free_unique(taken@, base@, k as nat, first_free(taken@, base@));
            }
            return candidate;
        }
        proof {
            lemma_taken_bound(taken@, base@, (k + 1) as nat);
        }
        k += 1;
    }
}

} // verus!
