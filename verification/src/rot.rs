//! The ROT13 rotational transform.
//!
//! A pure, stateless substitution applied independently to each character of
//! a record's text: ASCII lowercase and uppercase letters are rotated by 13
//! positions within their own 26-letter case-preserving alphabet (wrapping);
//! every other character passes through unchanged.  Applying the transform
//! twice is the identity.

use vstd::prelude::*;

verus! {

/// ROT13 on a single character: an ASCII letter moves 13 places within its
/// own case's alphabet, wrapping around; anything else is unchanged.
pub open spec fn spec_rot13(c: char) -> char {
    if 'a' <= c && c <= 'z' {
        ((((c as u8) - 97) + 13) % 26 + 97) as char
    } else if 'A' <= c && c <= 'Z' {
        ((((c as u8) - 65) + 13) % 26 + 65) as char
    } else {
        c
    }
}

/// ROT13 on a single byte, the byte-level counterpart of [`spec_rot13`]:
/// bytes holding ASCII letters rotate, all other bytes are unchanged.
pub open spec fn rot13_byte(b: u8) -> u8 {
    if 97 <= b && b <= 122 {
        (((b - 97) + 13) % 26 + 97) as u8
    } else if 65 <= b && b <= 90 {
        (((b - 65) + 13) % 26 + 65) as u8
    } else {
        b
    }
}

/// ROT13 applied to every byte of a sequence.
pub open spec fn rot13_bytes(s: Seq<u8>) -> Seq<u8> {
    s.map_values(|b: u8| rot13_byte(b))
}

/// Rotate one character by 13 places within its case's alphabet; characters
/// other than ASCII letters come back unchanged.
pub fn rot13(c: char) -> (r: char)
    ensures
        r == spec_rot13(c),
{
    if 'a' <= c && c <= 'z' {
        let b = c as u8;
        ((b - 97 + 13) % 26 + 97) as char
    } else if 'A' <= c && c <= 'Z' {
        let b = c as u8;
        ((b - 65 + 13) % 26 + 65) as char
    } else {
        c
    }
}

/// Rotate one byte by 13 places within its case's alphabet when it holds an
/// ASCII letter; any other byte comes back unchanged.
pub fn rot13_u8(b: u8) -> (r: u8)
    ensures
        r == rot13_byte(b),
{
    if 97 <= b && b <= 122 {
        (b - 97 + 13) % 26 + 97
    } else if 65 <= b && b <= 90 {
        (b - 65 + 13) % 26 + 65
    } else {
        b
    }
}

/// ROT13 applied to every byte of a slice, yielding a fresh vector.
pub fn rot13_vec(v: &[u8]) -> (r: Vec<u8>)
    ensures
        r@ == rot13_bytes(v@),
{
    let mut out: Vec<u8> = Vec::new();
    let mut i: usize = 0;
    while i < v.len()
        invariant
            i <= v@.len(),
            out@.len() == i,
            forall|j: int| 0 <= j < i ==> out@[j] == rot13_byte(v@[j]),
        decreases v@.len() - i,
    {
        let x = rot13_u8(v[i]);
        out.push(x);
        i = i + 1;
    }
    proof {
        assert(out@ =~= rot13_bytes(v@));
    }
    out
}

/// Rotating a byte twice yields the byte again.
pub proof fn lemma_rot13_byte_involution(b: u8)
    ensures
        rot13_byte(rot13_byte(b)) == b,
{
}

/// Rotating a character twice yields the character again.
pub proof fn lemma_rot13_char_involution(c: char)
    ensures
        spec_rot13(spec_rot13(c)) == c,
{
}

/// Rotating a byte sequence twice yields the original sequence: the
/// transform is an involution.
pub proof fn lemma_rot13_bytes_involution(s: Seq<u8>)
    ensures
        rot13_bytes(rot13_bytes(s)) == s,
{
    assert forall|i: int| 0 <= i < s.len() implies rot13_bytes(rot13_bytes(s))[i] == s[i] by {
        lemma_rot13_byte_involution(s[i]);
    }
    assert(rot13_bytes(rot13_bytes(s)) =~= s);
}

/// Rotating a text twice yields the original text: the transform is an
/// involution on character sequences.
pub proof fn lemma_rot13_involution(s: Seq<char>)
    ensures
        s.map_values(|c: char| spec_rot13(c)).map_values(|c: char| spec_rot13(c)) == s,
{
    let t = s.map_values(|c: char| spec_rot13(c)).map_values(|c: char| spec_rot13(c));
    assert forall|i: int| 0 <= i < s.len() implies t[i] == s[i] by {
        lemma_rot13_char_involution(s[i]);
    }
    assert(t =~= s);
}

} // verus!
