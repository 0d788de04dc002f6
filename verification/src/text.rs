//! Case-insensitive keyword matching over the UTF-8 bytes of strings.
//!
//! Configuration fields such as the restart policy and the log level
//! are matched against fixed lower-case keywords without regard to
//! ASCII case.

use vstd::prelude::*;
use vstd::string::StringSliceAdditionalSpecFns;

verus! {

/// The ASCII-lower-case image of one byte.
pub open spec fn lower_byte(b: u8) -> u8 {
    if 65 <= b <= 90 {
        (b + 32) as u8
    } else {
        b
    }
}

/// The ASCII-lower-case image of a byte sequence.
pub open spec fn lower_bytes(s: Seq<u8>) -> Seq<u8> {
    s.map_values(|b: u8| lower_byte(b))
}

/// Lower one byte.
pub fn lower_byte_exec(b: u8) -> (r: u8)
    ensures
        r == lower_byte(b),
{
    if 65 <= b && b <= 90 {
        b + 32
    } else {
        b
    }
}

/// True exactly when `s`, lowered byte by byte, equals the keyword
/// bytes `kw`.
pub fn matches_keyword(s: &str, kw: &str) -> (r: bool)
    ensures
        r == (lower_bytes(s.spec_bytes()) == kw.spec_bytes()),
{
    let sb: &[u8] = s.as_bytes();
    let kb: &[u8] = kw.as_bytes();
    if sb.len() != kb.len() {
        assert(lower_bytes(s.spec_bytes()).len() == s.spec_bytes().len());
        return false;
    }
    let mut i: usize = 0;
    while i < sb.len()
        invariant
            0 <= i <= sb.len(),
            sb@ == s.spec_bytes(),
            kb@ == kw.spec_bytes(),
            sb.len() == kb.len(),
            forall|j: int| 0 <= j < i ==> lower_byte(sb@[j]) == kb@[j],
        decreases sb.len() - i,
    {
        let b = sb[i];
        if lower_byte_exec(b) != kb[i] {
            assert(lower_bytes(s.spec_bytes())[i as int] != kw.spec_bytes()[i as int]);
            return false;
        }
        i = i + 1;
    }
    assert(lower_bytes(s.spec_bytes()) =~= kw.spec_bytes());
    true
}

/// A copy of a vector of strings, element for element.
pub fn clone_strings(v: &Vec<String>) -> (r: Vec<String>)
    ensures
        r@ == v@,
{
    let mut out: Vec<String> = Vec::new();
    let mut i: usize = 0;
    while i < v.len()
        invariant
            0 <= i <= v@.len(),
            out@.len() == i,
            forall|j: int| 0 <= j < i ==> out@[j] == v@[j],
        decreases v@.len() - i,
    {
        out.push(v[i].clone());
        i = i + 1;
    }
    assert(out@ =~= v@);
    out
}

} // verus!
