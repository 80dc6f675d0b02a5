//! Character classification and case folding used by the trigger matcher.

use vstd::prelude::*;

verus! {

/// ASCII case folding: uppercase letters map to their lowercase form,
/// every other character is left unchanged.
pub open spec fn fold_char_spec(c: char) -> char {
    if 'A' <= c && c <= 'Z' {
        ((c as int) + 32) as char
    } else {
        c
    }
}

/// Two characters are equal under a trigger's case rule: literally equal
/// when the trigger is case-sensitive, equal after folding otherwise.
pub open spec fn ch_eq_spec(a: char, b: char, case_sensitive: bool) -> bool {
    if case_sensitive {
        a == b
    } else {
        fold_char_spec(a) == fold_char_spec(b)
    }
}

/// A word character: ASCII letters, digits and underscore. Everything else
/// (whitespace, punctuation, symbols) counts as a word boundary.
pub open spec fn is_word_char_spec(c: char) -> bool {
    ('a' <= c && c <= 'z') || ('A' <= c && c <= 'Z') || ('0' <= c && c <= '9') || c == '_'
}

/// A boundary character: one that may legally precede or terminate a
/// trigger that requires a word boundary.
pub open spec fn is_boundary_spec(c: char) -> bool {
    !is_word_char_spec(c)
}

pub fn fold_char(c: char) -> (r: char)
    ensures
        r == fold_char_spec(c),
{
    if 'A' <= c && c <= 'Z' {
        (((c as u32) + 32) as u8) as char
    } else {
        c
    }
}

pub fn ch_eq(a: char, b: char, case_sensitive: bool) -> (r: bool)
    ensures
        r == ch_eq_spec(a, b, case_sensitive),
{
    if case_sensitive {
        a == b
    } else {
        fold_char(a) == fold_char(b)
    }
}

pub fn is_boundary(c: char) -> (r: bool)
    ensures
        r == is_boundary_spec(c),
{
    !(('a' <= c && c <= 'z') || ('A' <= c && c <= 'Z') || ('0' <= c && c <= '9') || c == '_')
}

} // verus!
