//! The byte codec under the control-plane messages.
//!
//! Every field encoding is length-delimited or of fixed width, so
//! the format is canonical: each decoder returns the one value whose
//! encoding starts at the given offset, and fails exactly when no
//! value's encoding starts there.

use vstd::prelude::*;
use vstd::string::StringSliceAdditionalSpecFns;
use vstd::utf8::{encode_utf8, valid_utf8};

verus! {

broadcast use vstd::seq_lib::group_seq_properties;

/// `enc` occupies `bytes` from `at` on.
pub open spec fn starts_with_at(bytes: Seq<u8>, at: int, enc: Seq<u8>) -> bool {
    &&& 0 <= at
    &&& at + enc.len() <= bytes.len()
    &&& bytes.subrange(at, at + enc.len()) == enc
}

/// A `u32`, little-endian.
pub open spec fn spec_u32_le(v: u32) -> Seq<u8> {
    seq![
        (v & 0xff) as u8,
        ((v >> 8) & 0xff) as u8,
        ((v >> 16) & 0xff) as u8,
        ((v >> 24) & 0xff) as u8,
    ]
}

/// A `u64`, little-endian.
pub open spec fn spec_u64_le(v: u64) -> Seq<u8> {
    seq![
        (v & 0xff) as u8,
        ((v >> 8) & 0xff) as u8,
        ((v >> 16) & 0xff) as u8,
        ((v >> 24) & 0xff) as u8,
        ((v >> 32) & 0xff) as u8,
        ((v >> 40) & 0xff) as u8,
        ((v >> 48) & 0xff) as u8,
        ((v >> 56) & 0xff) as u8,
    ]
}

/// An `i32`, as its two's-complement `u32`, little-endian.
pub open spec fn spec_i32_le(v: i32) -> Seq<u8> {
    spec_u32_le(v as u32)
}

/// A `bool`, one byte, `0` or `1`.
pub open spec fn spec_bool_byte(b: bool) -> Seq<u8> {
    seq![if b { 1u8 } else { 0u8 }]
}

/// A string: the byte length of its UTF-8 form, then that form.
pub open spec fn spec_string_bytes(s: Seq<char>) -> Seq<u8> {
    spec_u32_le(encode_utf8(s).len() as u32) + encode_utf8(s)
}

pub fn push_u32(out: &mut Vec<u8>, v: u32)
    ensures
        final(out)@ == old(out)@ + spec_u32_le(v),
{
    out.push((v & 0xff) as u8);
    out.push(((v >> 8) & 0xff) as u8);
    out.push(((v >> 16) & 0xff) as u8);
    out.push(((v >> 24) & 0xff) as u8);
    assert(final(out)@ =~= old(out)@ + spec_u32_le(v));
}

pub fn push_u64(out: &mut Vec<u8>, v: u64)
    ensures
        final(out)@ == old(out)@ + spec_u64_le(v),
{
    out.push((v & 0xff) as u8);
    out.push(((v >> 8) & 0xff) as u8);
    out.push(((v >> 16) & 0xff) as u8);
    out.push(((v >> 24) & 0xff) as u8);
    out.push(((v >> 32) & 0xff) as u8);
    out.push(((v >> 40) & 0xff) as u8);
    out.push(((v >> 48) & 0xff) as u8);
    out.push(((v >> 56) & 0xff) as u8);
    assert(final(out)@ =~= old(out)@ + spec_u64_le(v));
}

pub fn push_i32(out: &mut Vec<u8>, v: i32)
    ensures
        final(out)@ == old(out)@ + spec_i32_le(v),
{
    push_u32(out, v as u32);
}

pub fn push_bool(out: &mut Vec<u8>, b: bool)
    ensures
        final(out)@ == old(out)@ + spec_bool_byte(b),
{
    if b {
        out.push(1);
    } else {
        out.push(0);
    }
    assert(final(out)@ =~= old(out)@ + spec_bool_byte(b));
}

/// Little-endian `u32` encodings of different values differ.
pub proof fn lemma_u32_le_inj(a: u32, b: u32)
    requires
        spec_u32_le(a) == spec_u32_le(b),
    ensures
        a == b,
{
    assert(spec_u32_le(a)[0] == spec_u32_le(b)[0]);
    assert(spec_u32_le(a)[1] == spec_u32_le(b)[1]);
    assert(spec_u32_le(a)[2] == spec_u32_le(b)[2]);
    assert(spec_u32_le(a)[3] == spec_u32_le(b)[3]);
    assert((a & 0xff) as u8 == (b & 0xff) as u8 && ((a >> 8) & 0xff) as u8 == ((b >> 8)
        & 0xff) as u8 && ((a >> 16) & 0xff) as u8 == ((b >> 16) & 0xff) as u8 && ((a >> 24)
        & 0xff) as u8 == ((b >> 24) & 0xff) as u8 ==> a == b) by (bit_vector);
}

/// A piece of an encoding that starts at `at` equals the matching
/// piece of the buffer.
pub proof fn lemma_prefix_piece(bytes: Seq<u8>, at: int, enc: Seq<u8>, lo: int, hi: int)
    requires
        starts_with_at(bytes, at, enc),
        0 <= lo <= hi <= enc.len(),
    ensures
        bytes.subrange(at + lo, at + hi) == enc.subrange(lo, hi),
{
    assert forall|q: int| 0 <= q < enc.len() implies bytes[at + q] == enc[q] by {
        assert(bytes.subrange(at, at + enc.len())[q] == enc[q]);
    }
    assert(bytes.subrange(at + lo, at + hi) =~= enc.subrange(lo, hi));
}

/// Two strings whose encodings start at the same offset are the
/// same string: the length field pins the extent and UTF-8 decoding
/// is a function.
pub proof fn lemma_string_enc_unique(bytes: Seq<u8>, at: int, s1: Seq<char>, s2: Seq<char>)
    requires
        encode_utf8(s1).len() <= 0xffff_ffff,
        encode_utf8(s2).len() <= 0xffff_ffff,
        starts_with_at(bytes, at, spec_string_bytes(s1)),
        starts_with_at(bytes, at, spec_string_bytes(s2)),
    ensures
        s1 == s2,
        spec_string_bytes(s1) == spec_string_bytes(s2),
{
    lemma_prefix_piece(bytes, at, spec_string_bytes(s1), 0, 4);
    lemma_prefix_piece(bytes, at, spec_string_bytes(s2), 0, 4);
    assert(spec_string_bytes(s1).subrange(0, 4) =~= spec_u32_le(encode_utf8(s1).len() as u32));
    assert(spec_string_bytes(s2).subrange(0, 4) =~= spec_u32_le(encode_utf8(s2).len() as u32));
    lemma_u32_le_inj(encode_utf8(s1).len() as u32, encode_utf8(s2).len() as u32);
    assert(encode_utf8(s1).len() == encode_utf8(s2).len());
    assert(spec_string_bytes(s1) == spec_string_bytes(s2));
    assert(encode_utf8(s1) =~= encode_utf8(s2)) by {
        assert(spec_string_bytes(s1).subrange(4, spec_string_bytes(s1).len() as int)
            =~= encode_utf8(s1));
        assert(spec_string_bytes(s2).subrange(4, spec_string_bytes(s2).len() as int)
            =~= encode_utf8(s2));
    }
    vstd::utf8::encode_utf8_decode_utf8(s1);
    vstd::utf8::encode_utf8_decode_utf8(s2);
}

pub fn read_u32(bytes: &Vec<u8>, at: usize) -> (r: Option<(u32, usize)>)
    ensures
        r matches Some((v, next)) ==> next == at + 4 && starts_with_at(
            bytes@,
            at as int,
            spec_u32_le(v),
        ),
        r is None ==> forall|v: u32| !starts_with_at(bytes@, at as int, spec_u32_le(v)),
        at + 4 <= bytes@.len() ==> r is Some,
{
    if at >= bytes.len() || bytes.len() - at < 4 {
        return None;
    }
    let b0 = bytes[at] as u32;
    let b1 = bytes[at + 1] as u32;
    let b2 = bytes[at + 2] as u32;
    let b3 = bytes[at + 3] as u32;
    let v = b0 | (b1 << 8) | (b2 << 16) | (b3 << 24);
    proof {
        let c0 = bytes@[at as int];
        let c1 = bytes@[at as int + 1];
        let c2 = bytes@[at as int + 2];
        let c3 = bytes@[at as int + 3];
        assert({
            let w = (c0 as u32) | ((c1 as u32) << 8) | ((c2 as u32) << 16) | ((c3 as u32) << 24);
            (w & 0xff) as u8 == c0 && ((w >> 8) & 0xff) as u8 == c1 && ((w >> 16) & 0xff) as u8
                == c2 && ((w >> 24) & 0xff) as u8 == c3
        }) by (bit_vector);
        assert(bytes@.subrange(at as int, at as int + 4) =~= spec_u32_le(v));
    }
    Some((v, at + 4))
}

pub fn read_u64(bytes: &Vec<u8>, at: usize) -> (r: Option<(u64, usize)>)
    ensures
        r matches Some((v, next)) ==> next == at + 8 && starts_with_at(
            bytes@,
            at as int,
            spec_u64_le(v),
        ),
        r is None ==> forall|v: u64| !starts_with_at(bytes@, at as int, spec_u64_le(v)),
        at + 8 <= bytes@.len() ==> r is Some,
{
    if at >= bytes.len() || bytes.len() - at < 8 {
        return None;
    }
    let b0 = bytes[at] as u64;
    let b1 = bytes[at + 1] as u64;
    let b2 = bytes[at + 2] as u64;
    let b3 = bytes[at + 3] as u64;
    let b4 = bytes[at + 4] as u64;
    let b5 = bytes[at + 5] as u64;
    let b6 = bytes[at + 6] as u64;
    let b7 = bytes[at + 7] as u64;
    let v = b0 | (b1 << 8) | (b2 << 16) | (b3 << 24) | (b4 << 32) | (b5 << 40) | (b6 << 48) | (b7
        << 56);
    proof {
        let c0 = bytes@[at as int];
        let c1 = bytes@[at as int + 1];
        let c2 = bytes@[at as int + 2];
        let c3 = bytes@[at as int + 3];
        let c4 = bytes@[at as int + 4];
        let c5 = bytes@[at as int + 5];
        let c6 = bytes@[at as int + 6];
        let c7 = bytes@[at as int + 7];
        assert({
            let w = (c0 as u64) | ((c1 as u64) << 8) | ((c2 as u64) << 16) | ((c3 as u64) << 24)
                | ((c4 as u64) << 32) | ((c5 as u64) << 40) | ((c6 as u64) << 48) | ((c7
                as u64) << 56);
            (w & 0xff) as u8 == c0 && ((w >> 8) & 0xff) as u8 == c1 && ((w >> 16) & 0xff) as u8
                == c2 && ((w >> 24) & 0xff) as u8 == c3 && ((w >> 32) & 0xff) as u8 == c4 && ((w
                >> 40) & 0xff) as u8 == c5 && ((w >> 48) & 0xff) as u8 == c6 && ((w >> 56)
                & 0xff) as u8 == c7
        }) by (bit_vector);
        assert(bytes@.subrange(at as int, at as int + 8) =~= spec_u64_le(v));
    }
    Some((v, at + 8))
}

pub fn read_i32(bytes: &Vec<u8>, at: usize) -> (r: Option<(i32, usize)>)
    ensures
        r matches Some((v, next)) ==> next == at + 4 && starts_with_at(
            bytes@,
            at as int,
            spec_i32_le(v),
        ),
        r is None ==> forall|v: i32| !starts_with_at(bytes@, at as int, spec_i32_le(v)),
        at + 4 <= bytes@.len() ==> r is Some,
{
    match read_u32(bytes, at) {
        Some((v, next)) => {
            let s = v as i32;
            proof {
                assert((v as i32) as u32 == v) by (bit_vector);
            }
            Some((s, next))
        },
        None => {
            proof {
                assert forall|v: i32| !starts_with_at(bytes@, at as int, spec_i32_le(v)) by {
                    assert(!starts_with_at(bytes@, at as int, spec_u32_le(v as u32)));
                }
            }
            None
        },
    }
}

pub fn read_bool(bytes: &Vec<u8>, at: usize) -> (r: Option<(bool, usize)>)
    ensures
        r matches Some((b, next)) ==> next == at + 1 && starts_with_at(
            bytes@,
            at as int,
            spec_bool_byte(b),
        ),
        r is None ==> forall|b: bool| !starts_with_at(bytes@, at as int, spec_bool_byte(b)),
{
    if at >= bytes.len() {
        return None;
    }
    let byte = bytes[at];
    if byte == 0 {
        assert(bytes@.subrange(at as int, at as int + 1) =~= spec_bool_byte(false));
        Some((false, at + 1))
    } else if byte == 1 {
        assert(bytes@.subrange(at as int, at as int + 1) =~= spec_bool_byte(true));
        Some((true, at + 1))
    } else {
        proof {
            assert forall|b: bool| !starts_with_at(bytes@, at as int, spec_bool_byte(b)) by {
                if starts_with_at(bytes@, at as int, spec_bool_byte(b)) {
                    assert(bytes@.subrange(at as int, at as int + 1)[0] == spec_bool_byte(b)[0]);
                }
            }
        }
        None
    }
}

/// Relies on `String::from_utf8` of std: when the bytes are valid
/// UTF-8 it returns the string they encode, and it reports an error
/// exactly otherwise.
#[verifier::external_body]
fn bytes_to_string(v: Vec<u8>) -> (r: Option<String>)
    ensures
        r is Some <==> valid_utf8(v@),
        r matches Some(s) ==> encode_utf8(s@) == v@,
{
    match String::from_utf8(v) {
        Ok(s) => Some(s),
        Err(_) => None,
    }
}

pub fn push_string(out: &mut Vec<u8>, s: &String)
    requires
        encode_utf8(s@).len() <= 0xffff_ffff,
    ensures
        final(out)@ == old(out)@ + spec_string_bytes(s@),
{
    let b: &[u8] = s.as_str().as_bytes();
    push_u32(out, b.len() as u32);
    let ghost after_len = out@;
    let mut i: usize = 0;
    while i < b.len()
        invariant
            b@ == encode_utf8(s@),
            0 <= i <= b@.len(),
            out@ == after_len + b@.subrange(0, i as int),
        decreases b@.len() - i,
    {
        out.push(b[i]);
        assert(out@ =~= after_len + b@.subrange(0, i + 1));
        i = i + 1;
    }
    assert(b@.subrange(0, b@.len() as int) =~= b@);
    assert(out@ =~= old(out)@ + spec_string_bytes(s@));
}

pub fn read_string(bytes: &Vec<u8>, at: usize) -> (r: Option<(String, usize)>)
    ensures
        r matches Some((s, next)) ==> next == at + 4 + encode_utf8(s@).len() && encode_utf8(
            s@,
        ).len() <= 0xffff_ffff && starts_with_at(bytes@, at as int, spec_string_bytes(s@)),
        r is None ==> forall|s: Seq<char>|
            encode_utf8(s).len() <= 0xffff_ffff ==> !starts_with_at(
                bytes@,
                at as int,
                spec_string_bytes(s),
            ),
{
    let len_read = read_u32(bytes, at);
    match len_read {
        None => {
            proof {
                assert forall|s: Seq<char>|
                    encode_utf8(s).len() <= 0xffff_ffff implies !starts_with_at(
                    bytes@,
                    at as int,
                    spec_string_bytes(s),
                ) by {
                    if starts_with_at(bytes@, at as int, spec_string_bytes(s)) {
                        let enc = spec_string_bytes(s);
                        let lw = (encode_utf8(s).len() as u32);
                        lemma_prefix_piece(bytes@, at as int, enc, 0, 4);
                        assert(enc.subrange(0, 4) =~= spec_u32_le(lw));
                        assert(starts_with_at(bytes@, at as int, spec_u32_le(lw)));
                    }
                }
            }
            None
        },
        Some((len, body_at)) => {
            let len_usize = len as usize;
            if bytes.len() < body_at || bytes.len() - body_at < len_usize {
                proof {
                    assert forall|s: Seq<char>|
                        encode_utf8(s).len() <= 0xffff_ffff implies !starts_with_at(
                        bytes@,
                        at as int,
                        spec_string_bytes(s),
                    ) by {
                        if starts_with_at(bytes@, at as int, spec_string_bytes(s)) {
                            let enc = spec_string_bytes(s);
                            let lw = (encode_utf8(s).len() as u32);
                            lemma_prefix_piece(bytes@, at as int, enc, 0, 4);
                            assert(enc.subrange(0, 4) =~= spec_u32_le(lw));
                            assert(bytes@.subrange(at as int, at as int + 4) == spec_u32_le(lw));
                            assert(bytes@.subrange(at as int, at as int + 4) == spec_u32_le(len));
                            lemma_u32_le_inj(lw, len);
                        }
                    }
                }
                return None;
            }
            let mut body: Vec<u8> = Vec::new();
            let mut i: usize = 0;
            while i < len_usize
                invariant
                    body_at + len_usize <= bytes@.len(),
                    bytes@.len() <= usize::MAX,
                    0 <= i <= len_usize,
                    body@ == bytes@.subrange(body_at as int, body_at as int + i),
                decreases len_usize - i,
            {
                body.push(bytes[body_at + i]);
                assert(body@ =~= bytes@.subrange(body_at as int, body_at as int + i + 1));
                i = i + 1;
            }
            let ghost body_seq = body@;
            let converted = bytes_to_string(body);
            match converted {
                Some(s) => {
                    proof {
                        assert(encode_utf8(s@) == body_seq);
                        assert(bytes@.subrange(at as int, at as int + 4 + len as int)
                            =~= spec_u32_le(len) + body_seq);
                        assert(spec_string_bytes(s@) == spec_u32_le(len) + body_seq);
                    }
                    Some((s, body_at + len_usize))
                },
                None => {
                    proof {
                        assert forall|s: Seq<char>|
                            encode_utf8(s).len() <= 0xffff_ffff implies !starts_with_at(
                            bytes@,
                            at as int,
                            spec_string_bytes(s),
                        ) by {
                            if starts_with_at(bytes@, at as int, spec_string_bytes(s)) {
                                let enc = spec_string_bytes(s);
                                let lw = (encode_utf8(s).len() as u32);
                                lemma_prefix_piece(bytes@, at as int, enc, 0, 4);
                                assert(enc.subrange(0, 4) =~= spec_u32_le(lw));
                                assert(bytes@.subrange(at as int, at as int + 4) == spec_u32_le(
                                    len,
                                ));
                                lemma_u32_le_inj(lw, len);
                                lemma_prefix_piece(bytes@, at as int, enc, 4, enc.len() as int);
                                assert(enc.subrange(4, enc.len() as int) =~= encode_utf8(s));
                                assert(bytes@.subrange(
                                    body_at as int,
                                    body_at as int + len as int,
                                ) == encode_utf8(s));
                                assert(body_seq == encode_utf8(s));
                                vstd::utf8::encode_utf8_valid_utf8(s);
                            }
                        }
                    }
                    None
                },
            }
        },
    }
}

/// An opaque byte field: its length, then the bytes themselves.
pub open spec fn spec_bytes_field(d: Seq<u8>) -> Seq<u8> {
    spec_u32_le(d.len() as u32) + d
}

pub fn push_bytes_field(out: &mut Vec<u8>, d: &Vec<u8>)
    requires
        d@.len() <= 0xffff_ffff,
    ensures
        final(out)@ == old(out)@ + spec_bytes_field(d@),
{
    push_u32(out, d.len() as u32);
    let ghost after_len = out@;
    let mut i: usize = 0;
    while i < d.len()
        invariant
            0 <= i <= d@.len(),
            out@ == after_len + d@.subrange(0, i as int),
        decreases d@.len() - i,
    {
        out.push(d[i]);
        assert(out@ =~= after_len + d@.subrange(0, i + 1));
        i = i + 1;
    }
    assert(d@.subrange(0, d@.len() as int) =~= d@);
    assert(out@ =~= old(out)@ + spec_bytes_field(d@));
}

pub fn read_bytes_field(bytes: &Vec<u8>, at: usize) -> (r: Option<(Vec<u8>, usize)>)
    ensures
        r matches Some((d, next)) ==> next == at + 4 + d@.len() && d@.len() <= 0xffff_ffff
            && starts_with_at(bytes@, at as int, spec_bytes_field(d@)),
        r is None ==> forall|d: Seq<u8>|
            d.len() <= 0xffff_ffff ==> !starts_with_at(bytes@, at as int, spec_bytes_field(d)),
{
    let len_read = read_u32(bytes, at);
    match len_read {
        None => {
            proof {
                assert forall|d: Seq<u8>|
                    d.len() <= 0xffff_ffff implies !starts_with_at(
                    bytes@,
                    at as int,
                    spec_bytes_field(d),
                ) by {
                    if starts_with_at(bytes@, at as int, spec_bytes_field(d)) {
                        let enc = spec_bytes_field(d);
                        let lw = (d.len() as u32);
                        lemma_prefix_piece(bytes@, at as int, enc, 0, 4);
                        assert(enc.subrange(0, 4) =~= spec_u32_le(lw));
                        assert(starts_with_at(bytes@, at as int, spec_u32_le(lw)));
                    }
                }
            }
            None
        },
        Some((len, body_at)) => {
            let len_usize = len as usize;
            if bytes.len() < body_at || bytes.len() - body_at < len_usize {
                proof {
                    assert forall|d: Seq<u8>|
                        d.len() <= 0xffff_ffff implies !starts_with_at(
                        bytes@,
                        at as int,
                        spec_bytes_field(d),
                    ) by {
                        if starts_with_at(bytes@, at as int, spec_bytes_field(d)) {
                            let enc = spec_bytes_field(d);
                            let lw = (d.len() as u32);
                            lemma_prefix_piece(bytes@, at as int, enc, 0, 4);
                            assert(enc.subrange(0, 4) =~= spec_u32_le(lw));
                            assert(bytes@.subrange(at as int, at as int + 4) == spec_u32_le(len));
                            lemma_u32_le_inj(lw, len);
                        }
                    }
                }
                return None;
            }
            let mut body: Vec<u8> = Vec::new();
            let mut i: usize = 0;
            while i < len_usize
                invariant
                    body_at + len_usize <= bytes@.len(),
                    bytes@.len() <= usize::MAX,
                    0 <= i <= len_usize,
                    body@ == bytes@.subrange(body_at as int, body_at as int + i),
                decreases len_usize - i,
            {
                body.push(bytes[body_at + i]);
                assert(body@ =~= bytes@.subrange(body_at as int, body_at as int + i + 1));
                i = i + 1;
            }
            proof {
                assert(bytes@.subrange(at as int, at as int + 4 + len as int) =~= spec_u32_le(len)
                    + body@);
            }
            Some((body, body_at + len_usize))
        },
    }
}

} // verus!
