//! Small executable helpers for working with identifiers and header
//! text: ASCII case mapping on single characters, character-exact
//! string equality, and appending single characters to a `String`.

use vstd::prelude::*;

verus! {

/// An ASCII uppercase letter, `'A'` through `'Z'`.
pub open spec fn is_upper_char(c: char) -> bool {
    65 <= c as u32 && c as u32 <= 90
}

/// An ASCII lowercase letter, `'a'` through `'z'`.
pub open spec fn is_lower_char(c: char) -> bool {
    97 <= c as u32 && c as u32 <= 122
}

/// ASCII lowercasing of one character; anything but `'A'`..`'Z'` is kept.
pub open spec fn to_lower_char(c: char) -> char {
    if is_upper_char(c) {
        ((c as u32 + 32) as u32) as char
    } else {
        c
    }
}

/// ASCII uppercasing of one character; anything but `'a'`..`'z'` is kept.
pub open spec fn to_upper_char(c: char) -> char {
    if is_lower_char(c) {
        ((c as u32 - 32) as u32) as char
    } else {
        c
    }
}

/// Every character of `s`, lowercased.
pub open spec fn lowered(s: Seq<char>) -> Seq<char> {
    s.map_values(|c: char| to_lower_char(c))
}

/// Every character of `s`, uppercased.
pub open spec fn uppered(s: Seq<char>) -> Seq<char> {
    s.map_values(|c: char| to_upper_char(c))
}

#[verifier::when_used_as_spec(to_lower_char)]
pub fn lower_char(c: char) -> (r: char)
    ensures
        r == to_lower_char(c),
{
    let u: u32 = c as u32;
    if 65 <= u && u <= 90 {
        let r = ((u + 32) as u8) as char;
        proof {
            vstd::utf8::char_u32_cast(r, (u + 32) as u32);
        }
        r
    } else {
        c
    }
}

#[verifier::when_used_as_spec(to_upper_char)]
pub fn upper_char(c: char) -> (r: char)
    ensures
        r == to_upper_char(c),
{
    let u: u32 = c as u32;
    if 97 <= u && u <= 122 {
        let r = ((u - 32) as u8) as char;
        proof {
            vstd::utf8::char_u32_cast(r, (u - 32) as u32);
        }
        r
    } else {
        c
    }
}

/// Uppercasing undoes lowercasing on an uppercase letter.
pub proof fn lemma_upper_of_lower(c: char)
    requires
        is_upper_char(c),
    ensures
        to_upper_char(to_lower_char(c)) == c,
{
    let u: u32 = (c as u32 + 32) as u32;
    let e = u as char;
    assert(e as u32 == u);
    assert(to_lower_char(c) == e);
    assert(is_lower_char(e));
    let v: u32 = (e as u32 - 32) as u32;
    let f = v as char;
    assert(f as u32 == v);
    assert(v == c as u32);
    vstd::utf8::char_u32_cast(c, c as u32);
    assert(to_upper_char(e) == f);
}

/// Lowercasing undoes uppercasing on anything that is not uppercase.
pub proof fn lemma_lower_of_upper(c: char)
    requires
        !is_upper_char(c),
    ensures
        to_lower_char(to_upper_char(c)) == c,
{
    if is_lower_char(c) {
        let u: u32 = (c as u32 - 32) as u32;
        let e = u as char;
        assert(e as u32 == u);
        assert(to_upper_char(c) == e);
        assert(is_upper_char(e));
        let v: u32 = (e as u32 + 32) as u32;
        let f = v as char;
        assert(f as u32 == v);
        assert(v == c as u32);
        vstd::utf8::char_u32_cast(c, c as u32);
        assert(to_lower_char(e) == f);
    }
}

/// Advancing one character through a suffix of a sequence.
pub proof fn lemma_skip_step(s: Seq<char>, i: int)
    requires
        0 <= i < s.len(),
    ensures
        s.skip(i).len() == s.len() - i,
        s.skip(i)[0] == s[i],
        s.skip(i).drop_first() =~= s.skip(i + 1),
{
}

/// Relies on `String::push` of std: appends exactly the one character.
#[verifier::external_body]
pub fn push_char(s: &mut String, c: char)
    ensures
        final(s)@ == old(s)@.push(c),
{
    s.push(c);
}

/// Character-exact equality of two string slices.
pub fn str_eq_str(a: &str, b: &str) -> (r: bool)
    ensures
        r == (a@ == b@),
{
    let n = a.unicode_len();
    let m = b.unicode_len();
    if n != m {
        return false;
    }
    let mut i: usize = 0;
    while i < n
        invariant
            n == a@.len(),
            n == b@.len(),
            i <= n,
            forall|j: int| 0 <= j < i ==> a@[j] == b@[j],
        decreases n - i,
    {
        if a.get_char(i) != b.get_char(i) {
            return false;
        }
        i += 1;
    }
    proof {
        assert(a@ =~= b@);
    }
    true
}

/// Character-exact equality of two strings.
pub fn string_eq(a: &String, b: &String) -> (r: bool)
    ensures
        r == (a@ == b@),
{
    str_eq_str(a.as_str(), b.as_str())
}

} // verus!


