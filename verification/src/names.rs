//! Normalized names.
//!
//! Header names and session-variable names share one vocabulary: a
//! non-empty string of lower-case letters, digits, `-`, `_` and `.`.
//! Parsing accepts upper-case ASCII letters as well and maps them to
//! lower case; anything else is malformed.

use vstd::prelude::*;
use crate::is_name_char;

verus! {

/// A character accepted in a name before normalization.
pub open spec fn name_char_ok(c: char) -> bool {
    is_name_char(c) || ('A' <= c && c <= 'Z')
}

/// The lower-case form of an ASCII letter; any other character is unchanged.
pub open spec fn lower_char(c: char) -> char {
    if 'A' <= c && c <= 'Z' {
        (((c as u32) + 32) as char)
    } else {
        c
    }
}

/// A well-formed input: non-empty, every character acceptable.
pub open spec fn is_name_input(s: Seq<char>) -> bool {
    s.len() > 0 && (forall|i: int| 0 <= i < s.len() ==> name_char_ok(#[trigger] s[i]))
}

/// A normalized name: non-empty and already lower-case.
pub open spec fn is_lower_name(s: Seq<char>) -> bool {
    s.len() > 0 && (forall|i: int| 0 <= i < s.len() ==> is_name_char(#[trigger] s[i]))
}

/// What normalization returns on a well-formed input.
pub open spec fn normalized_of(s: Seq<char>) -> Seq<char> {
    s.map_values(|c: char| lower_char(c))
}

/// Normalizing a well-formed input yields a normalized name.
pub proof fn lemma_normalized_is_lower(s: Seq<char>)
    requires
        is_name_input(s),
    ensures
        is_lower_name(normalized_of(s)),
{
    assert forall|i: int| 0 <= i < normalized_of(s).len()
        implies is_name_char(#[trigger] normalized_of(s)[i]) by {
        assert(name_char_ok(s[i]));
    }
}

/// Normalization does not change a name that is already normalized.
pub proof fn lemma_normalize_lower_identity(s: Seq<char>)
    requires
        is_lower_name(s),
    ensures
        normalized_of(s) == s,
{
    assert forall|i: int| 0 <= i < s.len() implies normalized_of(s)[i] == s[i] by {
        assert(is_name_char(s[i]));
    }
    assert(normalized_of(s) =~= s);
}

/// Relies on `String::from_utf8`: bytes below 0x80 are valid UTF-8 and
/// decode to the characters with the same scalar values.
#[verifier::external_body]
pub(crate) fn ascii_bytes_to_string(bytes: Vec<u8>) -> (r: String)
    requires
        forall|i: int| 0 <= i < bytes@.len() ==> bytes@[i] < 128,
    ensures
        r@ == bytes@.map_values(|b: u8| b as char),
{
    match String::from_utf8(bytes) {
        Ok(s) => s,
        Err(_) => String::new(),
    }
}

/// Lower-cases a name, or rejects it.
///
/// Returns the normalized (lower-case) form of `s` when every character
/// of `s` is a letter, a digit, `-`, `_` or `.` and `s` is non-empty;
/// returns `None` otherwise.
pub fn normalize_name(s: &str) -> (r: Option<String>)
    ensures
        r is Some <==> is_name_input(s@),
        r matches Some(t) ==> t@ == normalized_of(s@) && is_lower_name(t@),
{
    let n = s.unicode_len();
    if n == 0 {
        return None;
    }
    let mut bytes: Vec<u8> = Vec::new();
    let mut i: usize = 0;
    while i < n
        invariant
            0 <= i <= n,
            n == s@.len(),
            forall|j: int| 0 <= j < i ==> name_char_ok(#[trigger] s@[j]),
            bytes@.len() == i,
            forall|j: int|
                0 <= j < i ==> #[trigger] bytes@[j] < 128 && (bytes@[j] as char) == lower_char(
                    s@[j],
                ),
        decreases n - i,
    {
        let c = s.get_char(i);
        let u = c as u32;
        let acceptable = (97 <= u && u <= 122) || (48 <= u && u <= 57) || u == 45 || u == 95
            || u == 46;
        if acceptable {
            bytes.push(c as u8);
        } else if 65 <= u && u <= 90 {
            bytes.push((c as u8) + 32);
        } else {
            assert(!name_char_ok(s@[i as int]));
            return None;
        }
        i += 1;
    }
    let out = ascii_bytes_to_string(bytes);
    proof {
        assert(out@ =~= normalized_of(s@));
        lemma_normalized_is_lower(s@);
    }
    Some(out)
}

} // verus!
