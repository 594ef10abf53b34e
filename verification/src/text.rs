//! Character-level plumbing shared by the JSON framing and the renderer.
//!
//! The library works on `Vec<char>` internally so that every step is plain
//! verified code; these helpers move between `String`/`&str` and `Vec<char>`.

use vstd::prelude::*;

verus! {

/// The unique character whose code point is `code`, for valid scalar values.
pub open spec fn char_of(code: u32) -> char {
    choose|c: char| (#[trigger] (c as u32)) == code
}

/// Whether `code` is a Unicode scalar value (a value some `char` carries).
pub open spec fn valid_scalar(code: u32) -> bool {
    code < 0xD800 || (0xE000 <= code && code <= 0x10FFFF)
}

pub proof fn lemma_char_of_code(c: char)
    ensures
        char_of(c as u32) == c,
{
    assert(exists|d: char| (#[trigger] (d as u32)) == c as u32) by {
        assert(c as u32 == c as u32);
    }
    let d = choose|d: char| (#[trigger] (d as u32)) == c as u32;
    assert(d == c);
}

/// Relies on `char::from_u32`: for every Unicode scalar value it returns the
/// character with exactly that code point.
#[verifier::external_body]
pub fn char_from_code(code: u32) -> (c: char)
    requires
        valid_scalar(code),
    ensures
        c as u32 == code,
{
    char::from_u32(code).unwrap()
}

/// The characters of a string slice, gathered into a vector.
pub fn chars_of(s: &str) -> (v: Vec<char>)
    ensures
        v@ == s@,
{
    let n = s.unicode_len();
    let mut v: Vec<char> = Vec::new();
    let mut i: usize = 0;
    while i < n
        invariant
            n == s@.len(),
            i <= n,
            v@ == s@.subrange(0, i as int),
        decreases n - i,
    {
        v.push(s.get_char(i));
        i = i + 1;
        proof {
            assert(v@ =~= s@.subrange(0, i as int));
        }
    }
    proof {
        assert(v@ =~= s@);
    }
    v
}

/// Relies on `String: FromIterator<char>`: collecting characters builds the
/// string holding exactly those characters in order.
#[verifier::external_body]
pub fn string_from_chars(v: &Vec<char>) -> (s: String)
    ensures
        s@ == v@,
{
    v.iter().collect()
}

/// Whether two string slices hold the same characters.
pub fn str_eq(a: &str, b: &str) -> (r: bool)
    ensures
        r == (a@ == b@),
{
    let na = a.unicode_len();
    let nb = b.unicode_len();
    if na != nb {
        return false;
    }
    let mut i: usize = 0;
    while i < na
        invariant
            na == a@.len(),
            na == b@.len(),
            i <= na,
            forall|j: int| 0 <= j < i ==> a@[j] == b@[j],
        decreases na - i,
    {
        if a.get_char(i) != b.get_char(i) {
            return false;
        }
        i = i + 1;
    }
    proof {
        assert(a@ =~= b@);
    }
    true
}

/// Whether a character vector holds the same characters as a string slice.
pub fn chars_eq_str(v: &Vec<char>, s: &str) -> (r: bool)
    ensures
        r == (v@ == s@),
{
    let n = s.unicode_len();
    if v.len() != n {
        return false;
    }
    let mut i: usize = 0;
    while i < n
        invariant
            n == s@.len(),
            n == v@.len(),
            i <= n,
            forall|j: int| 0 <= j < i ==> v@[j] == s@[j],
        decreases n - i,
    {
        if v[i] != s.get_char(i) {
            return false;
        }
        i = i + 1;
    }
    proof {
        assert(v@ =~= s@);
    }
    true
}

/// The views of a sequence of strings, character by character.
pub open spec fn strs_view(v: Seq<String>) -> Seq<Seq<char>> {
    Seq::new(v.len(), |i: int| v[i]@)
}

} // verus!
