//! The control-plane messages and their encodings.
//!
//! The envelope is a tagged method code with an opaque payload; each
//! payload is itself one of the per-method messages.  An empty
//! payload decodes to the message with every field defaulted,
//! mirroring how an absent body is read on the wire.

use vstd::prelude::*;
use vstd::utf8::encode_utf8;

use crate::rpc::codec::{
    push_bool, push_bytes_field, push_i32, push_string, push_u32, push_u64, read_bool,
    read_bytes_field, read_i32, read_string, read_u32, read_u64, spec_bool_byte,
    spec_bytes_field, spec_i32_le, spec_string_bytes, spec_u32_le, spec_u64_le, starts_with_at,
};

verus! {

broadcast use vstd::seq_lib::group_seq_properties;

/// The dispatchable methods of the control plane.
#[derive(Clone, Copy, Debug, PartialEq, Eq, Structural)]
pub enum RpcMethod {
    Unknown,
    Ping,
    ListUnits,
    StartUnit,
    StopUnit,
}

impl RpcMethod {
    /// The wire code of this method.
    pub fn value(&self) -> (r: i32)
        ensures
            r == self.spec_value(),
    {
        match self {
            RpcMethod::Unknown => 0,
            RpcMethod::Ping => 1,
            RpcMethod::ListUnits => 2,
            RpcMethod::StartUnit => 3,
            RpcMethod::StopUnit => 4,
        }
    }

    /// The wire code, as a specification-level function.
    pub open spec fn spec_value(self) -> i32 {
        match self {
            RpcMethod::Unknown => 0,
            RpcMethod::Ping => 1,
            RpcMethod::ListUnits => 2,
            RpcMethod::StartUnit => 3,
            RpcMethod::StopUnit => 4,
        }
    }
}

/// The method a wire code stands for; codes outside the table are
/// `Unknown`.
pub fn rpc_method_from_code(code: i32) -> (r: RpcMethod)
    ensures
        code == 1 ==> r is Ping,
        code == 2 ==> r is ListUnits,
        code == 3 ==> r is StartUnit,
        code == 4 ==> r is StopUnit,
        !(1 <= code <= 4) ==> r is Unknown,
{
    if code == 1 {
        RpcMethod::Ping
    } else if code == 2 {
        RpcMethod::ListUnits
    } else if code == 3 {
        RpcMethod::StartUnit
    } else if code == 4 {
        RpcMethod::StopUnit
    } else {
        RpcMethod::Unknown
    }
}

/// A request envelope: a method code and an opaque payload.
#[derive(Debug)]
pub struct RpcRequest {
    pub method: i32,
    pub data: Vec<u8>,
}

/// A reply envelope: the echoed method code, a status, a payload on
/// success, an error text on failure.
#[derive(Debug)]
pub struct RpcResponse {
    pub method: i32,
    pub status: bool,
    pub data: Vec<u8>,
    pub error: String,
}

/// The bytes of a request envelope.
pub open spec fn spec_request_bytes(method: i32, data: Seq<u8>) -> Seq<u8> {
    spec_i32_le(method) + spec_bytes_field(data)
}

/// The bytes of a reply envelope.
pub open spec fn spec_response_bytes(
    method: i32,
    status: bool,
    data: Seq<u8>,
    error: Seq<char>,
) -> Seq<u8> {
    spec_i32_le(method) + spec_bool_byte(status) + spec_bytes_field(data) + spec_string_bytes(
        error,
    )
}

/// Adjacent segments of a buffer join to their concatenation.
proof fn lemma_join2(bytes: Seq<u8>, a0: int, a1: int, a2: int, e1: Seq<u8>, e2: Seq<u8>)
    requires
        0 <= a0 <= a1 <= a2 <= bytes.len(),
        bytes.subrange(a0, a1) == e1,
        bytes.subrange(a1, a2) == e2,
    ensures
        bytes.subrange(a0, a2) == e1 + e2,
{
    assert forall|q: int| a0 <= q < a1 implies bytes[q] == e1[q - a0] by {
        assert(bytes.subrange(a0, a1)[q - a0] == e1[q - a0]);
    }
    assert forall|q: int| a1 <= q < a2 implies bytes[q] == e2[q - a1] by {
        assert(bytes.subrange(a1, a2)[q - a1] == e2[q - a1]);
    }
    assert(bytes.subrange(a0, a2) =~= e1 + e2);
}

pub fn encode_rpc_request(req: &RpcRequest) -> (r: Vec<u8>)
    requires
        req.data@.len() <= 0xffff_ffff,
    ensures
        r@ == spec_request_bytes(req.method, req.data@),
{
    let mut out: Vec<u8> = Vec::new();
    push_i32(&mut out, req.method);
    push_bytes_field(&mut out, &req.data);
    assert(out@ =~= spec_request_bytes(req.method, req.data@));
    out
}

pub fn decode_rpc_request(bytes: &Vec<u8>) -> (r: Option<RpcRequest>)
    ensures
        r matches Some(req) ==> bytes@ == spec_request_bytes(req.method, req.data@)
            && req.data@.len() <= 0xffff_ffff,
        r is None ==> forall|m: i32, d: Seq<u8>|
            d.len() <= 0xffff_ffff ==> bytes@ != spec_request_bytes(m, d),
{
    let method_read = read_i32(bytes, 0);
    match method_read {
        None => {
            proof {
                assert forall|m: i32, d: Seq<u8>|
                    d.len() <= 0xffff_ffff implies bytes@ != spec_request_bytes(m, d) by {
                    if bytes@ == spec_request_bytes(m, d) {
                        assert(bytes@.subrange(0, 4) =~= spec_i32_le(m));
                        assert(starts_with_at(bytes@, 0, spec_i32_le(m)));
                    }
                }
            }
            None
        },
        Some((method, at1)) => {
            let data_read = read_bytes_field(bytes, at1);
            match data_read {
                None => {
                    proof {
                        assert forall|m: i32, d: Seq<u8>|
                            d.len() <= 0xffff_ffff implies bytes@ != spec_request_bytes(m, d) by {
                            if bytes@ == spec_request_bytes(m, d) {
                                assert(bytes@.subrange(4, bytes@.len() as int)
                                    =~= spec_bytes_field(d));
                                assert(starts_with_at(bytes@, 4, spec_bytes_field(d)));
                            }
                        }
                    }
                    None
                },
                Some((data, next)) => {
                    if next != bytes.len() {
                        proof {
                            assert forall|m: i32, d: Seq<u8>|
                                d.len() <= 0xffff_ffff implies bytes@ != spec_request_bytes(
                                m,
                                d,
                            ) by {
                                if bytes@ == spec_request_bytes(m, d) {
                                    assert(bytes@.subrange(4, 8) =~= spec_u32_le(d.len() as u32));
                                    assert(bytes@.subrange(4, 8) == spec_u32_le(
                                        data@.len() as u32,
                                    )) by {
                                        assert(starts_with_at(
                                            bytes@,
                                            4,
                                            spec_bytes_field(data@),
                                        ));
                                        crate::rpc::codec::lemma_prefix_piece(
                                            bytes@,
                                            4,
                                            spec_bytes_field(data@),
                                            0,
                                            4,
                                        );
                                        assert(spec_bytes_field(data@).subrange(0, 4)
                                            =~= spec_u32_le(data@.len() as u32));
                                    }
                                    crate::rpc::codec::lemma_u32_le_inj(
                                        d.len() as u32,
                                        data@.len() as u32,
                                    );
                                }
                            }
                        }
                        return None;
                    }
                    proof {
                        lemma_join2(
                            bytes@,
                            0,
                            4,
                            next as int,
                            spec_i32_le(method),
                            spec_bytes_field(data@),
                        );
                        assert(bytes@.subrange(0, bytes@.len() as int) =~= bytes@);
                    }
                    Some(RpcRequest { method, data })
                },
            }
        },
    }
}

pub fn encode_rpc_response(resp: &RpcResponse) -> (r: Vec<u8>)
    requires
        resp.data@.len() <= 0xffff_ffff,
        encode_utf8(resp.error@).len() <= 0xffff_ffff,
    ensures
        r@ == spec_response_bytes(resp.method, resp.status, resp.data@, resp.error@),
{
    let mut out: Vec<u8> = Vec::new();
    push_i32(&mut out, resp.method);
    push_bool(&mut out, resp.status);
    push_bytes_field(&mut out, &resp.data);
    push_string(&mut out, &resp.error);
    assert(out@ =~= spec_response_bytes(resp.method, resp.status, resp.data@, resp.error@));
    out
}

/// The field positions inside a reply encoding: where each of the
/// four fields starts and how long the whole encoding is.
proof fn lemma_response_fields(
    bytes: Seq<u8>,
    m: i32,
    st: bool,
    d: Seq<u8>,
    e: Seq<char>,
)
    requires
        d.len() <= 0xffff_ffff,
        encode_utf8(e).len() <= 0xffff_ffff,
        bytes == spec_response_bytes(m, st, d, e),
    ensures
        bytes.len() == 4 + 1 + (4 + d.len()) + (4 + encode_utf8(e).len()),
        starts_with_at(bytes, 0, spec_i32_le(m)),
        starts_with_at(bytes, 4, spec_bool_byte(st)),
        starts_with_at(bytes, 5, spec_bytes_field(d)),
        starts_with_at(bytes, 9 + d.len() as int, spec_string_bytes(e)),
{
    let e1 = spec_i32_le(m);
    let e2 = spec_bool_byte(st);
    let e3 = spec_bytes_field(d);
    let e4 = spec_string_bytes(e);
    assert(bytes.subrange(0, 4) =~= e1);
    assert(bytes.subrange(4, 5) =~= e2);
    assert(bytes.subrange(5, 5 + e3.len() as int) =~= e3);
    assert(bytes.subrange(5 + e3.len() as int, bytes.len() as int) =~= e4);
}

/// Decodes a reply envelope; exactly the buffers that are the
/// encoding of some reply decode, to that reply.
pub fn decode_rpc_response(bytes: &Vec<u8>) -> (r: Option<RpcResponse>)
    ensures
        r matches Some(resp) ==> bytes@ == spec_response_bytes(
            resp.method,
            resp.status,
            resp.data@,
            resp.error@,
        ),
        r is None ==> forall|m: i32, st: bool, d: Seq<u8>, e: Seq<char>|
            d.len() <= 0xffff_ffff && encode_utf8(e).len() <= 0xffff_ffff ==> bytes@
                != spec_response_bytes(m, st, d, e),
{
    let method_read = read_i32(bytes, 0);
    let (method, at1) = match method_read {
        Some(v) => v,
        None => {
            proof {
                assert forall|m: i32, st: bool, d: Seq<u8>, e: Seq<char>|
                    d.len() <= 0xffff_ffff && encode_utf8(e).len() <= 0xffff_ffff implies bytes@
                    != spec_response_bytes(m, st, d, e) by {
                    if bytes@ == spec_response_bytes(m, st, d, e) {
                        lemma_response_fields(bytes@, m, st, d, e);
                    }
                }
            }
            return None;
        },
    };
    let status_read = read_bool(bytes, at1);
    let (status, at2) = match status_read {
        Some(v) => v,
        None => {
            proof {
                assert forall|m: i32, st: bool, d: Seq<u8>, e: Seq<char>|
                    d.len() <= 0xffff_ffff && encode_utf8(e).len() <= 0xffff_ffff implies bytes@
                    != spec_response_bytes(m, st, d, e) by {
                    if bytes@ == spec_response_bytes(m, st, d, e) {
                        lemma_response_fields(bytes@, m, st, d, e);
                    }
                }
            }
            return None;
        },
    };
    let data_read = read_bytes_field(bytes, at2);
    let (data, at3) = match data_read {
        Some(v) => v,
        None => {
            proof {
                assert forall|m: i32, st: bool, d: Seq<u8>, e: Seq<char>|
                    d.len() <= 0xffff_ffff && encode_utf8(e).len() <= 0xffff_ffff implies bytes@
                    != spec_response_bytes(m, st, d, e) by {
                    if bytes@ == spec_response_bytes(m, st, d, e) {
                        lemma_response_fields(bytes@, m, st, d, e);
                    }
                }
            }
            return None;
        },
    };
    let error_read = read_string(bytes, at3);
    let (error, at4) = match error_read {
        Some(v) => v,
        None => {
            proof {
                assert forall|m: i32, st: bool, d: Seq<u8>, e: Seq<char>|
                    d.len() <= 0xffff_ffff && encode_utf8(e).len() <= 0xffff_ffff implies bytes@
                    != spec_response_bytes(m, st, d, e) by {
                    if bytes@ == spec_response_bytes(m, st, d, e) {
                        lemma_response_fields(bytes@, m, st, d, e);
                        crate::rpc::codec::lemma_prefix_piece(
                            bytes@,
                            5,
                            spec_bytes_field(d),
                            0,
                            4,
                        );
                        assert(spec_bytes_field(d).subrange(0, 4) =~= spec_u32_le(
                            d.len() as u32,
                        ));
                        assert(starts_with_at(bytes@, 5, spec_bytes_field(data@)));
                        crate::rpc::codec::lemma_prefix_piece(
                            bytes@,
                            5,
                            spec_bytes_field(data@),
                            0,
                            4,
                        );
                        assert(spec_bytes_field(data@).subrange(0, 4) =~= spec_u32_le(
                            data@.len() as u32,
                        ));
                        crate::rpc::codec::lemma_u32_le_inj(d.len() as u32, data@.len() as u32);
                        assert(d.len() == data@.len());
                    }
                }
            }
            return None;
        },
    };
    if at4 != bytes.len() {
        proof {
            assert forall|m: i32, st: bool, d: Seq<u8>, e: Seq<char>|
                d.len() <= 0xffff_ffff && encode_utf8(e).len() <= 0xffff_ffff implies bytes@
                != spec_response_bytes(m, st, d, e) by {
                if bytes@ == spec_response_bytes(m, st, d, e) {
                    lemma_response_fields(bytes@, m, st, d, e);
                    crate::rpc::codec::lemma_prefix_piece(bytes@, 5, spec_bytes_field(d), 0, 4);
                    assert(spec_bytes_field(d).subrange(0, 4) =~= spec_u32_le(d.len() as u32));
                    assert(starts_with_at(bytes@, 5, spec_bytes_field(data@)));
                    crate::rpc::codec::lemma_prefix_piece(
                        bytes@,
                        5,
                        spec_bytes_field(data@),
                        0,
                        4,
                    );
                    assert(spec_bytes_field(data@).subrange(0, 4) =~= spec_u32_le(
                        data@.len() as u32,
                    ));
                    crate::rpc::codec::lemma_u32_le_inj(d.len() as u32, data@.len() as u32);
                    assert(d.len() == data@.len());
                    let estart = 9 + d.len() as int;
                    crate::rpc::codec::lemma_prefix_piece(
                        bytes@,
                        estart,
                        spec_string_bytes(e),
                        0,
                        4,
                    );
                    assert(spec_string_bytes(e).subrange(0, 4) =~= spec_u32_le(
                        encode_utf8(e).len() as u32,
                    ));
                    assert(starts_with_at(bytes@, estart, spec_string_bytes(error@)));
                    crate::rpc::codec::lemma_prefix_piece(
                        bytes@,
                        estart,
                        spec_string_bytes(error@),
                        0,
                        4,
                    );
                    assert(spec_string_bytes(error@).subrange(0, 4) =~= spec_u32_le(
                        encode_utf8(error@).len() as u32,
                    ));
                    crate::rpc::codec::lemma_u32_le_inj(
                        encode_utf8(e).len() as u32,
                        encode_utf8(error@).len() as u32,
                    );
                    assert(encode_utf8(e).len() == encode_utf8(error@).len());
                }
            }
        }
        return None;
    }
    proof {
        lemma_join2(bytes@, 0, 4, 5, spec_i32_le(method), spec_bool_byte(status));
        lemma_join2(
            bytes@,
            0,
            5,
            at3 as int,
            spec_i32_le(method) + spec_bool_byte(status),
            spec_bytes_field(data@),
        );
        lemma_join2(
            bytes@,
            0,
            at3 as int,
            at4 as int,
            spec_i32_le(method) + spec_bool_byte(status) + spec_bytes_field(data@),
            spec_string_bytes(error@),
        );
        assert(bytes@.subrange(0, bytes@.len() as int) =~= bytes@);
    }
    Some(RpcResponse { method, status, data, error })
}

/// The snapshot of one unit carried in a list-units reply.
#[derive(Debug)]
pub struct UnitInfo {
    pub name: String,
    pub executable: String,
    pub arguments: Vec<String>,
    pub restart_policy: i32,
    pub uid: i32,
    pub gid: i32,
    pub enabled: bool,
    pub process_probe_state: i32,
    pub liveness_probe_state: i32,
    pub state: i32,
    /// `-1` when the unit holds no child.
    pub pid: i32,
    /// Whole seconds; `0` when the unit holds no child.
    pub uptime: u64,
}

/// The concatenated encodings of a list of strings.
pub open spec fn spec_strings_cat(ss: Seq<Seq<char>>) -> Seq<u8>
    decreases ss.len(),
{
    if ss.len() == 0 {
        Seq::empty()
    } else {
        spec_strings_cat(ss.drop_last()) + spec_string_bytes(ss.last())
    }
}

/// A string list: its count, then each string.
pub open spec fn spec_string_list_bytes(ss: Seq<Seq<char>>) -> Seq<u8> {
    spec_u32_le(ss.len() as u32) + spec_strings_cat(ss)
}

/// The view of a vector of strings.
pub open spec fn strings_view(v: Seq<String>) -> Seq<Seq<char>> {
    v.map_values(|a: String| a@)
}

/// Every string of the list fits its length field, and so does the
/// count.
pub open spec fn strings_encodable(ss: Seq<Seq<char>>) -> bool {
    &&& ss.len() <= 0xffff_ffff
    &&& forall|q: int| 0 <= q < ss.len() ==> encode_utf8(#[trigger] ss[q]).len() <= 0xffff_ffff
}

/// The concatenation of string encodings, read from the front.
proof fn lemma_cat_front(ss: Seq<Seq<char>>)
    requires
        ss.len() > 0,
    ensures
        spec_strings_cat(ss) == spec_string_bytes(ss[0]) + spec_strings_cat(ss.drop_first()),
    decreases ss.len(),
{
    if ss.len() == 1 {
        assert(ss.drop_last() =~= Seq::<Seq<char>>::empty());
        assert(ss.drop_first() =~= Seq::<Seq<char>>::empty());
        assert(spec_strings_cat(ss) =~= spec_string_bytes(ss[0]) + spec_strings_cat(
            ss.drop_first(),
        ));
    } else {
        lemma_cat_front(ss.drop_last());
        assert(ss.drop_last()[0] == ss[0]);
        assert(ss.drop_last().drop_first() =~= ss.drop_first().drop_last());
        assert(ss.drop_first().last() == ss.last());
        assert(spec_strings_cat(ss) == spec_strings_cat(ss.drop_last()) + spec_string_bytes(
            ss.last(),
        ));
        assert(spec_strings_cat(ss) =~= spec_string_bytes(ss[0]) + spec_strings_cat(
            ss.drop_first(),
        ));
    }
}

/// Two equally long string lists whose concatenated encodings start
/// at the same offset are the same list.
proof fn lemma_cats_unique(bytes: Seq<u8>, at: int, l1: Seq<Seq<char>>, l2: Seq<Seq<char>>)
    requires
        l1.len() == l2.len(),
        forall|q: int| 0 <= q < l1.len() ==> encode_utf8(#[trigger] l1[q]).len() <= 0xffff_ffff,
        forall|q: int| 0 <= q < l2.len() ==> encode_utf8(#[trigger] l2[q]).len() <= 0xffff_ffff,
        starts_with_at(bytes, at, spec_strings_cat(l1)),
        starts_with_at(bytes, at, spec_strings_cat(l2)),
    ensures
        l1 == l2,
        spec_strings_cat(l1) == spec_strings_cat(l2),
    decreases l1.len(),
{
    if l1.len() == 0 {
        assert(l1 =~= l2);
        assert(spec_strings_cat(l1) =~= spec_strings_cat(l2));
    } else {
        lemma_cat_front(l1);
        lemma_cat_front(l2);
        crate::rpc::codec::lemma_prefix_piece(
            bytes,
            at,
            spec_strings_cat(l1),
            0,
            spec_string_bytes(l1[0]).len() as int,
        );
        assert(spec_strings_cat(l1).subrange(0, spec_string_bytes(l1[0]).len() as int)
            =~= spec_string_bytes(l1[0]));
        crate::rpc::codec::lemma_prefix_piece(
            bytes,
            at,
            spec_strings_cat(l2),
            0,
            spec_string_bytes(l2[0]).len() as int,
        );
        assert(spec_strings_cat(l2).subrange(0, spec_string_bytes(l2[0]).len() as int)
            =~= spec_string_bytes(l2[0]));
        crate::rpc::codec::lemma_string_enc_unique(bytes, at, l1[0], l2[0]);
        let head_len = spec_string_bytes(l1[0]).len() as int;
        crate::rpc::codec::lemma_prefix_piece(
            bytes,
            at,
            spec_strings_cat(l1),
            head_len,
            spec_strings_cat(l1).len() as int,
        );
        assert(spec_strings_cat(l1).subrange(head_len, spec_strings_cat(l1).len() as int)
            =~= spec_strings_cat(l1.drop_first()));
        crate::rpc::codec::lemma_prefix_piece(
            bytes,
            at,
            spec_strings_cat(l2),
            head_len,
            spec_strings_cat(l2).len() as int,
        );
        assert(spec_strings_cat(l2).subrange(head_len, spec_strings_cat(l2).len() as int)
            =~= spec_strings_cat(l2.drop_first()));
        assert forall|q: int|
            0 <= q < l1.drop_first().len() implies encode_utf8(
            #[trigger] l1.drop_first()[q],
        ).len() <= 0xffff_ffff by {
            assert(l1.drop_first()[q] == l1[q + 1]);
        }
        assert forall|q: int|
            0 <= q < l2.drop_first().len() implies encode_utf8(
            #[trigger] l2.drop_first()[q],
        ).len() <= 0xffff_ffff by {
            assert(l2.drop_first()[q] == l2[q + 1]);
        }
        lemma_cats_unique(bytes, at + head_len, l1.drop_first(), l2.drop_first());
        assert(l1 =~= l2) by {
            assert forall|q: int| 0 <= q < l1.len() implies l1[q] == l2[q] by {
                if q > 0 {
                    assert(l1.drop_first()[q - 1] == l1[q]);
                    assert(l2.drop_first()[q - 1] == l2[q]);
                }
            }
        }
    }
}

/// Two string lists whose encodings start at the same offset are the
/// same list with the same encoding.
pub proof fn lemma_string_list_enc_unique(
    bytes: Seq<u8>,
    at: int,
    l1: Seq<Seq<char>>,
    l2: Seq<Seq<char>>,
)
    requires
        strings_encodable(l1),
        strings_encodable(l2),
        starts_with_at(bytes, at, spec_string_list_bytes(l1)),
        starts_with_at(bytes, at, spec_string_list_bytes(l2)),
    ensures
        l1 == l2,
        spec_string_list_bytes(l1) == spec_string_list_bytes(l2),
{
    crate::rpc::codec::lemma_prefix_piece(bytes, at, spec_string_list_bytes(l1), 0, 4);
    crate::rpc::codec::lemma_prefix_piece(bytes, at, spec_string_list_bytes(l2), 0, 4);
    assert(spec_string_list_bytes(l1).subrange(0, 4) =~= spec_u32_le(l1.len() as u32));
    assert(spec_string_list_bytes(l2).subrange(0, 4) =~= spec_u32_le(l2.len() as u32));
    crate::rpc::codec::lemma_u32_le_inj(l1.len() as u32, l2.len() as u32);
    assert(l1.len() == l2.len());
    crate::rpc::codec::lemma_prefix_piece(
        bytes,
        at,
        spec_string_list_bytes(l1),
        4,
        spec_string_list_bytes(l1).len() as int,
    );
    assert(spec_string_list_bytes(l1).subrange(4, spec_string_list_bytes(l1).len() as int)
        =~= spec_strings_cat(l1));
    crate::rpc::codec::lemma_prefix_piece(
        bytes,
        at,
        spec_string_list_bytes(l2),
        4,
        spec_string_list_bytes(l2).len() as int,
    );
    assert(spec_string_list_bytes(l2).subrange(4, spec_string_list_bytes(l2).len() as int)
        =~= spec_strings_cat(l2));
    lemma_cats_unique(bytes, at + 4, l1, l2);
    assert(spec_string_list_bytes(l1) =~= spec_string_list_bytes(l2));
}

pub fn push_string_list(out: &mut Vec<u8>, v: &Vec<String>)
    requires
        v@.len() <= 0xffff_ffff,
        forall|k: int| 0 <= k < v@.len() ==> encode_utf8(#[trigger] v@[k]@).len() <= 0xffff_ffff,
    ensures
        final(out)@ == old(out)@ + spec_string_list_bytes(strings_view(v@)),
{
    push_u32(out, v.len() as u32);
    let ghost base = out@;
    let mut i: usize = 0;
    while i < v.len()
        invariant
            v@.len() <= 0xffff_ffff,
            forall|k: int|
                0 <= k < v@.len() ==> encode_utf8(#[trigger] v@[k]@).len() <= 0xffff_ffff,
            0 <= i <= v@.len(),
            out@ == base + spec_strings_cat(strings_view(v@).take(i as int)),
        decreases v@.len() - i,
    {
        push_string(out, &v[i]);
        proof {
            let sv = strings_view(v@);
            assert(sv.take(i + 1).drop_last() =~= sv.take(i as int));
            assert(sv.take(i + 1).last() == v@[i as int]@);
            assert(out@ =~= base + spec_strings_cat(sv.take(i + 1)));
        }
        i = i + 1;
    }
    proof {
        assert(strings_view(v@).take(v@.len() as int) =~= strings_view(v@));
        assert(out@ =~= old(out)@ + spec_string_list_bytes(strings_view(v@)));
    }
}

/// A concatenation of string encodings splits at any position.
proof fn lemma_cat_split(ss: Seq<Seq<char>>, i: int)
    requires
        0 <= i <= ss.len(),
    ensures
        spec_strings_cat(ss) == spec_strings_cat(ss.take(i)) + spec_strings_cat(ss.skip(i)),
    decreases ss.len() - i,
{
    if i == ss.len() {
        assert(ss.take(i) =~= ss);
        assert(ss.skip(i) =~= Seq::<Seq<char>>::empty());
        assert(spec_strings_cat(ss) =~= spec_strings_cat(ss.take(i)) + spec_strings_cat(
            ss.skip(i),
        ));
    } else {
        lemma_cat_split(ss, i + 1);
        assert(ss.take(i + 1).drop_last() =~= ss.take(i));
        assert(ss.take(i + 1).last() == ss[i]);
        lemma_cat_front(ss.skip(i));
        assert(ss.skip(i)[0] == ss[i]);
        assert(ss.skip(i).drop_first() =~= ss.skip(i + 1));
        assert(spec_strings_cat(ss) =~= spec_strings_cat(ss.take(i)) + spec_strings_cat(
            ss.skip(i),
        ));
    }
}

pub fn read_string_list(bytes: &Vec<u8>, at: usize) -> (r: Option<(Vec<String>, usize)>)
    ensures
        r matches Some((v, next)) ==> starts_with_at(
            bytes@,
            at as int,
            spec_string_list_bytes(strings_view(v@)),
        ) && next == at + spec_string_list_bytes(strings_view(v@)).len() && strings_encodable(
            strings_view(v@),
        ),
        r is None ==> forall|ss: Seq<Seq<char>>|
            strings_encodable(ss) ==> !starts_with_at(
                bytes@,
                at as int,
                spec_string_list_bytes(ss),
            ),
{
    let count_read = read_u32(bytes, at);
    let (count, mut cursor) = match count_read {
        Some(v) => v,
        None => {
            proof {
                assert forall|ss: Seq<Seq<char>>|
                    strings_encodable(ss) implies !starts_with_at(
                    bytes@,
                    at as int,
                    spec_string_list_bytes(ss),
                ) by {
                    if starts_with_at(bytes@, at as int, spec_string_list_bytes(ss)) {
                        crate::rpc::codec::lemma_prefix_piece(
                            bytes@,
                            at as int,
                            spec_string_list_bytes(ss),
                            0,
                            4,
                        );
                        assert(spec_string_list_bytes(ss).subrange(0, 4) =~= spec_u32_le(
                            ss.len() as u32,
                        ));
                        assert(starts_with_at(bytes@, at as int, spec_u32_le(ss.len() as u32)));
                    }
                }
            }
            return None;
        },
    };
    let mut v: Vec<String> = Vec::new();
    proof {
        assert forall|ss: Seq<Seq<char>>|
            strings_encodable(ss) && #[trigger] starts_with_at(
                bytes@,
                at as int,
                spec_string_list_bytes(ss),
            ) implies ss.len() == count && ss.take(0) == strings_view(v@) && spec_strings_cat(
            ss.take(0),
        ) == spec_strings_cat(strings_view(v@)) by {
            crate::rpc::codec::lemma_prefix_piece(
                bytes@,
                at as int,
                spec_string_list_bytes(ss),
                0,
                4,
            );
            assert(spec_string_list_bytes(ss).subrange(0, 4) =~= spec_u32_le(ss.len() as u32));
            crate::rpc::codec::lemma_u32_le_inj(ss.len() as u32, count);
            assert(ss.take(0) =~= strings_view(v@));
            assert(spec_strings_cat(ss.take(0)) =~= spec_strings_cat(strings_view(v@)));
        }
    }
    let mut i: u32 = 0;
    while i < count
        invariant
            0 <= i <= count,
            v@.len() == i,
            at + 4 <= cursor <= bytes@.len(),
            starts_with_at(bytes@, at as int, spec_u32_le(count)),
            bytes@.subrange(at as int + 4, cursor as int) == spec_strings_cat(
                strings_view(v@),
            ),
            strings_encodable(strings_view(v@)),
            forall|ss: Seq<Seq<char>>|
                strings_encodable(ss) && #[trigger] starts_with_at(
                    bytes@,
                    at as int,
                    spec_string_list_bytes(ss),
                ) ==> ss.len() == count && ss.take(i as int) == strings_view(v@)
                    && spec_strings_cat(ss.take(i as int)) == spec_strings_cat(strings_view(v@)),
        decreases count - i,
    {
        let ghost prev_cursor = cursor;
        let ghost prev_v = v@;
        let item_read = read_string(bytes, cursor);
        proof {
            assert forall|ss: Seq<Seq<char>>|
                strings_encodable(ss) && #[trigger] starts_with_at(
                    bytes@,
                    at as int,
                    spec_string_list_bytes(ss),
                ) implies starts_with_at(bytes@, prev_cursor as int, spec_string_bytes(ss[
                i as int
            ])) by {
                crate::rpc::codec::lemma_prefix_piece(
                    bytes@,
                    at as int,
                    spec_string_list_bytes(ss),
                    4,
                    spec_string_list_bytes(ss).len() as int,
                );
                assert(spec_string_list_bytes(ss).subrange(
                    4,
                    spec_string_list_bytes(ss).len() as int,
                ) =~= spec_strings_cat(ss));
                lemma_cat_split(ss, i as int);
                assert(spec_strings_cat(ss.take(i as int)) == spec_strings_cat(
                    strings_view(prev_v),
                ));
                lemma_cat_front(ss.skip(i as int));
                assert(ss.skip(i as int)[0] == ss[i as int]);
                crate::rpc::codec::lemma_prefix_piece(
                    bytes@,
                    at as int + 4,
                    spec_strings_cat(ss),
                    spec_strings_cat(ss.take(i as int)).len() as int,
                    spec_strings_cat(ss.take(i as int)).len() + spec_string_bytes(
                        ss[i as int],
                    ).len() as int,
                );
                assert(spec_strings_cat(ss).subrange(
                    spec_strings_cat(ss.take(i as int)).len() as int,
                    spec_strings_cat(ss.take(i as int)).len() + spec_string_bytes(
                        ss[i as int],
                    ).len() as int,
                ) =~= spec_string_bytes(ss[i as int]));
            }
        }
        match item_read {
            Some((s, next)) => {
                v.push(s);
                proof {
                    assert(strings_view(v@).drop_last() =~= strings_view(prev_v));
                    assert(strings_view(v@).last() == s@);
                    lemma_join2(
                        bytes@,
                        at as int + 4,
                        prev_cursor as int,
                        next as int,
                        spec_strings_cat(strings_view(prev_v)),
                        spec_string_bytes(s@),
                    );
                    assert forall|ss: Seq<Seq<char>>|
                        strings_encodable(ss) && #[trigger] starts_with_at(
                            bytes@,
                            at as int,
                            spec_string_list_bytes(ss),
                        ) implies ss.take(i + 1) == strings_view(v@) && spec_strings_cat(
                        ss.take(i + 1),
                    ) == spec_strings_cat(strings_view(v@)) by {
                        crate::rpc::codec::lemma_string_enc_unique(
                            bytes@,
                            prev_cursor as int,
                            ss[i as int],
                            s@,
                        );
                        assert(ss.take(i + 1) =~= strings_view(v@));
                        assert(ss.take(i + 1).drop_last() =~= ss.take(i as int));
                        assert(spec_strings_cat(ss.take(i + 1)) =~= spec_strings_cat(
                            strings_view(v@),
                        ));
                    }
                    assert(strings_encodable(strings_view(v@))) by {
                        assert forall|q: int|
                            0 <= q < strings_view(v@).len() implies encode_utf8(
                            #[trigger] strings_view(v@)[q],
                        ).len() <= 0xffff_ffff by {
                            if q < prev_v.len() {
                                assert(strings_view(v@)[q] == strings_view(prev_v)[q]);
                            } else {
                                assert(strings_view(v@)[q] == s@);
                            }
                        }
                    }
                }
                cursor = next;
            },
            None => {
                proof {
                    assert forall|ss: Seq<Seq<char>>|
                        strings_encodable(ss) implies !starts_with_at(
                        bytes@,
                        at as int,
                        spec_string_list_bytes(ss),
                    ) by {
                        if starts_with_at(bytes@, at as int, spec_string_list_bytes(ss)) {
                            assert(starts_with_at(
                                bytes@,
                                prev_cursor as int,
                                spec_string_bytes(ss[i as int]),
                            ));
                        }
                    }
                }
                return None;
            },
        }
        i = i + 1;
    }
    proof {
        lemma_join2(
            bytes@,
            at as int,
            at as int + 4,
            cursor as int,
            spec_u32_le(count),
            spec_strings_cat(strings_view(v@)),
        );
        assert(count == v@.len() as u32);
    }
    Some((v, cursor))
}

/// The bytes of one unit snapshot: each field in declaration order.
pub open spec fn spec_unit_info_bytes(u: UnitInfo) -> Seq<u8> {
    spec_string_bytes(u.name@) + spec_string_bytes(u.executable@) + spec_string_list_bytes(
        strings_view(u.arguments@),
    ) + spec_i32_le(u.restart_policy) + spec_i32_le(u.uid) + spec_i32_le(u.gid) + spec_bool_byte(
        u.enabled,
    ) + spec_i32_le(u.process_probe_state) + spec_i32_le(u.liveness_probe_state) + spec_i32_le(
        u.state,
    ) + spec_i32_le(u.pid) + spec_u64_le(u.uptime)
}

/// Every string carried by the snapshot fits its length field.
pub open spec fn unit_info_encodable(u: UnitInfo) -> bool {
    &&& encode_utf8(u.name@).len() <= 0xffff_ffff
    &&& encode_utf8(u.executable@).len() <= 0xffff_ffff
    &&& u.arguments@.len() <= 0xffff_ffff
    &&& forall|k: int|
        0 <= k < u.arguments@.len() ==> encode_utf8(#[trigger] u.arguments@[k]@).len()
            <= 0xffff_ffff
}

pub fn push_unit_info(out: &mut Vec<u8>, u: &UnitInfo)
    requires
        unit_info_encodable(*u),
    ensures
        final(out)@ == old(out)@ + spec_unit_info_bytes(*u),
{
    push_string(out, &u.name);
    push_string(out, &u.executable);
    push_string_list(out, &u.arguments);
    push_i32(out, u.restart_policy);
    push_i32(out, u.uid);
    push_i32(out, u.gid);
    push_bool(out, u.enabled);
    push_i32(out, u.process_probe_state);
    push_i32(out, u.liveness_probe_state);
    push_i32(out, u.state);
    push_i32(out, u.pid);
    push_u64(out, u.uptime);
    assert(out@ =~= old(out)@ + spec_unit_info_bytes(*u));
}

/// The three variable-length fields of a snapshot, in bytes.
pub open spec fn info_head_len(u: UnitInfo) -> int {
    spec_string_bytes(u.name@).len() as int + spec_string_bytes(u.executable@).len() as int
        + spec_string_list_bytes(strings_view(u.arguments@)).len() as int
}

/// Where each field of a snapshot encoding sits.
proof fn lemma_unit_info_fields(bytes: Seq<u8>, at: int, u: UnitInfo)
    requires
        starts_with_at(bytes, at, spec_unit_info_bytes(u)),
    ensures
        spec_unit_info_bytes(u).len() == info_head_len(u) + 37,
        starts_with_at(bytes, at, spec_string_bytes(u.name@)),
        starts_with_at(
            bytes,
            at + spec_string_bytes(u.name@).len(),
            spec_string_bytes(u.executable@),
        ),
        starts_with_at(
            bytes,
            at + spec_string_bytes(u.name@).len() + spec_string_bytes(u.executable@).len(),
            spec_string_list_bytes(strings_view(u.arguments@)),
        ),
        starts_with_at(bytes, at + info_head_len(u), spec_i32_le(u.restart_policy)),
        starts_with_at(bytes, at + info_head_len(u) + 4, spec_i32_le(u.uid)),
        starts_with_at(bytes, at + info_head_len(u) + 8, spec_i32_le(u.gid)),
        starts_with_at(bytes, at + info_head_len(u) + 12, spec_bool_byte(u.enabled)),
        starts_with_at(bytes, at + info_head_len(u) + 13, spec_i32_le(u.process_probe_state)),
        starts_with_at(bytes, at + info_head_len(u) + 17, spec_i32_le(u.liveness_probe_state)),
        starts_with_at(bytes, at + info_head_len(u) + 21, spec_i32_le(u.state)),
        starts_with_at(bytes, at + info_head_len(u) + 25, spec_i32_le(u.pid)),
        starts_with_at(bytes, at + info_head_len(u) + 29, spec_u64_le(u.uptime)),
{
    let full = spec_unit_info_bytes(u);
    let ln = spec_string_bytes(u.name@).len() as int;
    let le = spec_string_bytes(u.executable@).len() as int;
    let la = spec_string_list_bytes(strings_view(u.arguments@)).len() as int;
    let h = ln + le + la;
    assert(full.subrange(0, ln) =~= spec_string_bytes(u.name@));
    crate::rpc::codec::lemma_prefix_piece(bytes, at, full, 0, ln);
    assert(full.subrange(ln, ln + le) =~= spec_string_bytes(u.executable@));
    crate::rpc::codec::lemma_prefix_piece(bytes, at, full, ln, ln + le);
    assert(full.subrange(ln + le, h) =~= spec_string_list_bytes(strings_view(u.arguments@)));
    crate::rpc::codec::lemma_prefix_piece(bytes, at, full, ln + le, h);
    assert(full.subrange(h, h + 4) =~= spec_i32_le(u.restart_policy));
    crate::rpc::codec::lemma_prefix_piece(bytes, at, full, h, h + 4);
    assert(full.subrange(h + 4, h + 8) =~= spec_i32_le(u.uid));
    crate::rpc::codec::lemma_prefix_piece(bytes, at, full, h + 4, h + 8);
    assert(full.subrange(h + 8, h + 12) =~= spec_i32_le(u.gid));
    crate::rpc::codec::lemma_prefix_piece(bytes, at, full, h + 8, h + 12);
    assert(full.subrange(h + 12, h + 13) =~= spec_bool_byte(u.enabled));
    crate::rpc::codec::lemma_prefix_piece(bytes, at, full, h + 12, h + 13);
    assert(full.subrange(h + 13, h + 17) =~= spec_i32_le(u.process_probe_state));
    crate::rpc::codec::lemma_prefix_piece(bytes, at, full, h + 13, h + 17);
    assert(full.subrange(h + 17, h + 21) =~= spec_i32_le(u.liveness_probe_state));
    crate::rpc::codec::lemma_prefix_piece(bytes, at, full, h + 17, h + 21);
    assert(full.subrange(h + 21, h + 25) =~= spec_i32_le(u.state));
    crate::rpc::codec::lemma_prefix_piece(bytes, at, full, h + 21, h + 25);
    assert(full.subrange(h + 25, h + 29) =~= spec_i32_le(u.pid));
    crate::rpc::codec::lemma_prefix_piece(bytes, at, full, h + 25, h + 29);
    assert(full.subrange(h + 29, h + 37) =~= spec_u64_le(u.uptime));
    crate::rpc::codec::lemma_prefix_piece(bytes, at, full, h + 29, h + 37);
}

/// Two snapshots whose encodings start at the same offset have the
/// same encoding: their variable-length fields coincide, so the
/// extents do too.
pub proof fn lemma_unit_info_enc_unique(bytes: Seq<u8>, at: int, u1: UnitInfo, u2: UnitInfo)
    requires
        unit_info_encodable(u1),
        unit_info_encodable(u2),
        starts_with_at(bytes, at, spec_unit_info_bytes(u1)),
        starts_with_at(bytes, at, spec_unit_info_bytes(u2)),
    ensures
        spec_unit_info_bytes(u1) == spec_unit_info_bytes(u2),
{
    lemma_unit_info_fields(bytes, at, u1);
    lemma_unit_info_fields(bytes, at, u2);
    crate::rpc::codec::lemma_string_enc_unique(bytes, at, u1.name@, u2.name@);
    crate::rpc::codec::lemma_string_enc_unique(
        bytes,
        at + spec_string_bytes(u1.name@).len(),
        u1.executable@,
        u2.executable@,
    );
    assert(strings_encodable(strings_view(u1.arguments@))) by {
        assert forall|q: int|
            0 <= q < strings_view(u1.arguments@).len() implies encode_utf8(
            #[trigger] strings_view(u1.arguments@)[q],
        ).len() <= 0xffff_ffff by {
            assert(strings_view(u1.arguments@)[q] == u1.arguments@[q]@);
        }
    }
    assert(strings_encodable(strings_view(u2.arguments@))) by {
        assert forall|q: int|
            0 <= q < strings_view(u2.arguments@).len() implies encode_utf8(
            #[trigger] strings_view(u2.arguments@)[q],
        ).len() <= 0xffff_ffff by {
            assert(strings_view(u2.arguments@)[q] == u2.arguments@[q]@);
        }
    }
    lemma_string_list_enc_unique(
        bytes,
        at + spec_string_bytes(u1.name@).len() + spec_string_bytes(u1.executable@).len(),
        strings_view(u1.arguments@),
        strings_view(u2.arguments@),
    );
    assert(info_head_len(u1) == info_head_len(u2));
    assert(spec_unit_info_bytes(u1).len() == spec_unit_info_bytes(u2).len());
    assert(spec_unit_info_bytes(u1) == bytes.subrange(
        at,
        at + spec_unit_info_bytes(u1).len() as int,
    ));
    assert(spec_unit_info_bytes(u2) == bytes.subrange(
        at,
        at + spec_unit_info_bytes(u2).len() as int,
    ));
}

#[verifier::rlimit(100)]
#[verifier::spinoff_prover]
pub fn read_unit_info(bytes: &Vec<u8>, at: usize) -> (r: Option<(UnitInfo, usize)>)
    ensures
        r matches Some((u, next)) ==> starts_with_at(bytes@, at as int, spec_unit_info_bytes(u))
            && next == at + spec_unit_info_bytes(u).len() && unit_info_encodable(u),
        r is None ==> forall|u: UnitInfo|
            unit_info_encodable(u) ==> !starts_with_at(
                bytes@,
                at as int,
                spec_unit_info_bytes(u),
            ),
{
    let r1 = read_string(bytes, at);
    let (name, c1) = match r1 {
        Some(v) => v,
        None => {
            proof {
                assert forall|u: UnitInfo|
                    unit_info_encodable(u) implies !starts_with_at(
                    bytes@,
                    at as int,
                    spec_unit_info_bytes(u),
                ) by {
                    if starts_with_at(bytes@, at as int, spec_unit_info_bytes(u)) {
                        lemma_unit_info_fields(bytes@, at as int, u);
                    }
                }
            }
            return None;
        },
    };
    let r2 = read_string(bytes, c1);
    let (executable, c2) = match r2 {
        Some(v) => v,
        None => {
            proof {
                assert forall|u: UnitInfo|
                    unit_info_encodable(u) implies !starts_with_at(
                    bytes@,
                    at as int,
                    spec_unit_info_bytes(u),
                ) by {
                    if starts_with_at(bytes@, at as int, spec_unit_info_bytes(u)) {
                        lemma_unit_info_fields(bytes@, at as int, u);
                        crate::rpc::codec::lemma_string_enc_unique(
                            bytes@,
                            at as int,
                            u.name@,
                            name@,
                        );
                    }
                }
            }
            return None;
        },
    };
    let r3 = read_string_list(bytes, c2);
    let (arguments, c3) = match r3 {
        Some(v) => v,
        None => {
            proof {
                assert forall|u: UnitInfo|
                    unit_info_encodable(u) implies !starts_with_at(
                    bytes@,
                    at as int,
                    spec_unit_info_bytes(u),
                ) by {
                    if starts_with_at(bytes@, at as int, spec_unit_info_bytes(u)) {
                        lemma_unit_info_fields(bytes@, at as int, u);
                        crate::rpc::codec::lemma_string_enc_unique(
                            bytes@,
                            at as int,
                            u.name@,
                            name@,
                        );
                        crate::rpc::codec::lemma_string_enc_unique(
                            bytes@,
                            c1 as int,
                            u.executable@,
                            executable@,
                        );
                        assert(strings_encodable(strings_view(u.arguments@))) by {
                            assert forall|q: int|
                                0 <= q < strings_view(u.arguments@).len() implies encode_utf8(
                                #[trigger] strings_view(u.arguments@)[q],
                            ).len() <= 0xffff_ffff by {
                                assert(strings_view(u.arguments@)[q] == u.arguments@[q]@);
                            }
                        }
                        assert(starts_with_at(
                            bytes@,
                            c2 as int,
                            spec_string_list_bytes(strings_view(u.arguments@)),
                        ));
                    }
                }
            }
            return None;
        },
    };
    if bytes.len() < c3 || bytes.len() - c3 < 37 {
        proof {
            assert forall|u: UnitInfo|
                unit_info_encodable(u) implies !starts_with_at(
                bytes@,
                at as int,
                spec_unit_info_bytes(u),
            ) by {
                if starts_with_at(bytes@, at as int, spec_unit_info_bytes(u)) {
                    lemma_unit_info_fields(bytes@, at as int, u);
                    crate::rpc::codec::lemma_string_enc_unique(bytes@, at as int, u.name@, name@);
                    crate::rpc::codec::lemma_string_enc_unique(
                        bytes@,
                        c1 as int,
                        u.executable@,
                        executable@,
                    );
                    assert(strings_encodable(strings_view(u.arguments@))) by {
                        assert forall|q: int|
                            0 <= q < strings_view(u.arguments@).len() implies encode_utf8(
                            #[trigger] strings_view(u.arguments@)[q],
                        ).len() <= 0xffff_ffff by {
                            assert(strings_view(u.arguments@)[q] == u.arguments@[q]@);
                        }
                    }
                    lemma_string_list_enc_unique(
                        bytes@,
                        c2 as int,
                        strings_view(u.arguments@),
                        strings_view(arguments@),
                    );
                    assert(at + info_head_len(u) == c3);
                }
            }
        }
        return None;
    }
    let r4 = read_i32(bytes, c3);
    let (restart_policy, c4) = match r4 {
        Some(v) => v,
        None => {
            return None;
        },
    };
    let r5 = read_i32(bytes, c4);
    let (uid, c5) = match r5 {
        Some(v) => v,
        None => {
            return None;
        },
    };
    let r6 = read_i32(bytes, c5);
    let (gid, c6) = match r6 {
        Some(v) => v,
        None => {
            return None;
        },
    };
    let r7 = read_bool(bytes, c6);
    let (enabled, c7) = match r7 {
        Some(v) => v,
        None => {
            proof {
                assert forall|u: UnitInfo|
                    unit_info_encodable(u) implies !starts_with_at(
                    bytes@,
                    at as int,
                    spec_unit_info_bytes(u),
                ) by {
                    if starts_with_at(bytes@, at as int, spec_unit_info_bytes(u)) {
                        lemma_unit_info_fields(bytes@, at as int, u);
                        crate::rpc::codec::lemma_string_enc_unique(
                            bytes@,
                            at as int,
                            u.name@,
                            name@,
                        );
                        crate::rpc::codec::lemma_string_enc_unique(
                            bytes@,
                            c1 as int,
                            u.executable@,
                            executable@,
                        );
                        assert(strings_encodable(strings_view(u.arguments@))) by {
                            assert forall|q: int|
                                0 <= q < strings_view(u.arguments@).len() implies encode_utf8(
                                #[trigger] strings_view(u.arguments@)[q],
                            ).len() <= 0xffff_ffff by {
                                assert(strings_view(u.arguments@)[q] == u.arguments@[q]@);
                            }
                        }
                        lemma_string_list_enc_unique(
                            bytes@,
                            c2 as int,
                            strings_view(u.arguments@),
                            strings_view(arguments@),
                        );
                        assert(at + info_head_len(u) == c3);
                        assert(starts_with_at(bytes@, c6 as int, spec_bool_byte(u.enabled)));
                    }
                }
            }
            return None;
        },
    };
    let r8 = read_i32(bytes, c7);
    let (process_probe_state, c8) = match r8 {
        Some(v) => v,
        None => {
            return None;
        },
    };
    let r9 = read_i32(bytes, c8);
    let (liveness_probe_state, c9) = match r9 {
        Some(v) => v,
        None => {
            return None;
        },
    };
    let r10 = read_i32(bytes, c9);
    let (state, c10) = match r10 {
        Some(v) => v,
        None => {
            return None;
        },
    };
    let r11 = read_i32(bytes, c10);
    let (pid, c11) = match r11 {
        Some(v) => v,
        None => {
            return None;
        },
    };
    let r12 = read_u64(bytes, c11);
    let (uptime, c12) = match r12 {
        Some(v) => v,
        None => {
            return None;
        },
    };
    let u = UnitInfo {
        name,
        executable,
        arguments,
        restart_policy,
        uid,
        gid,
        enabled,
        process_probe_state,
        liveness_probe_state,
        state,
        pid,
        uptime,
    };
    proof {
        lemma_join2(
            bytes@,
            at as int,
            c1 as int,
            c2 as int,
            spec_string_bytes(u.name@),
            spec_string_bytes(u.executable@),
        );
        lemma_join2(
            bytes@,
            at as int,
            c2 as int,
            c3 as int,
            spec_string_bytes(u.name@) + spec_string_bytes(u.executable@),
            spec_string_list_bytes(strings_view(u.arguments@)),
        );
        lemma_join2(
            bytes@,
            at as int,
            c3 as int,
            c4 as int,
            spec_string_bytes(u.name@) + spec_string_bytes(u.executable@)
                + spec_string_list_bytes(strings_view(u.arguments@)),
            spec_i32_le(u.restart_policy),
        );
        lemma_join2(
            bytes@,
            at as int,
            c4 as int,
            c5 as int,
            spec_string_bytes(u.name@) + spec_string_bytes(u.executable@)
                + spec_string_list_bytes(strings_view(u.arguments@)) + spec_i32_le(
                u.restart_policy,
            ),
            spec_i32_le(u.uid),
        );
        lemma_join2(
            bytes@,
            at as int,
            c5 as int,
            c6 as int,
            spec_string_bytes(u.name@) + spec_string_bytes(u.executable@)
                + spec_string_list_bytes(strings_view(u.arguments@)) + spec_i32_le(
                u.restart_policy,
            ) + spec_i32_le(u.uid),
            spec_i32_le(u.gid),
        );
        lemma_join2(
            bytes@,
            at as int,
            c6 as int,
            c7 as int,
            spec_string_bytes(u.name@) + spec_string_bytes(u.executable@)
                + spec_string_list_bytes(strings_view(u.arguments@)) + spec_i32_le(
                u.restart_policy,
            ) + spec_i32_le(u.uid) + spec_i32_le(u.gid),
            spec_bool_byte(u.enabled),
        );
        lemma_join2(
            bytes@,
            at as int,
            c7 as int,
            c8 as int,
            spec_string_bytes(u.name@) + spec_string_bytes(u.executable@)
                + spec_string_list_bytes(strings_view(u.arguments@)) + spec_i32_le(
                u.restart_policy,
            ) + spec_i32_le(u.uid) + spec_i32_le(u.gid) + spec_bool_byte(u.enabled),
            spec_i32_le(u.process_probe_state),
        );
        lemma_join2(
            bytes@,
            at as int,
            c8 as int,
            c9 as int,
            spec_string_bytes(u.name@) + spec_string_bytes(u.executable@)
                + spec_string_list_bytes(strings_view(u.arguments@)) + spec_i32_le(
                u.restart_policy,
            ) + spec_i32_le(u.uid) + spec_i32_le(u.gid) + spec_bool_byte(u.enabled) + spec_i32_le(
                u.process_probe_state,
            ),
            spec_i32_le(u.liveness_probe_state),
        );
        lemma_join2(
            bytes@,
            at as int,
            c9 as int,
            c10 as int,
            spec_string_bytes(u.name@) + spec_string_bytes(u.executable@)
                + spec_string_list_bytes(strings_view(u.arguments@)) + spec_i32_le(
                u.restart_policy,
            ) + spec_i32_le(u.uid) + spec_i32_le(u.gid) + spec_bool_byte(u.enabled) + spec_i32_le(
                u.process_probe_state,
            ) + spec_i32_le(u.liveness_probe_state),
            spec_i32_le(u.state),
        );
        lemma_join2(
            bytes@,
            at as int,
            c10 as int,
            c11 as int,
            spec_string_bytes(u.name@) + spec_string_bytes(u.executable@)
                + spec_string_list_bytes(strings_view(u.arguments@)) + spec_i32_le(
                u.restart_policy,
            ) + spec_i32_le(u.uid) + spec_i32_le(u.gid) + spec_bool_byte(u.enabled) + spec_i32_le(
                u.process_probe_state,
            ) + spec_i32_le(u.liveness_probe_state) + spec_i32_le(u.state),
            spec_i32_le(u.pid),
        );
        lemma_join2(
            bytes@,
            at as int,
            c11 as int,
            c12 as int,
            spec_string_bytes(u.name@) + spec_string_bytes(u.executable@)
                + spec_string_list_bytes(strings_view(u.arguments@)) + spec_i32_le(
                u.restart_policy,
            ) + spec_i32_le(u.uid) + spec_i32_le(u.gid) + spec_bool_byte(u.enabled) + spec_i32_le(
                u.process_probe_state,
            ) + spec_i32_le(u.liveness_probe_state) + spec_i32_le(u.state) + spec_i32_le(u.pid),
            spec_u64_le(u.uptime),
        );
        assert(unit_info_encodable(u)) by {
            assert(strings_encodable(strings_view(u.arguments@)));
            assert forall|q: int|
                0 <= q < u.arguments@.len() implies encode_utf8(
                #[trigger] u.arguments@[q]@,
            ).len() <= 0xffff_ffff by {
                assert(strings_view(u.arguments@)[q] == u.arguments@[q]@);
            }
        }
    }
    Some((u, c12))
}

/// The concatenated encodings of a list of unit snapshots.
pub open spec fn spec_infos_cat(us: Seq<UnitInfo>) -> Seq<u8>
    decreases us.len(),
{
    if us.len() == 0 {
        Seq::empty()
    } else {
        spec_infos_cat(us.drop_last()) + spec_unit_info_bytes(us.last())
    }
}

/// A list-units reply payload: the unit count, then each snapshot.
pub open spec fn spec_unit_list_bytes(us: Seq<UnitInfo>) -> Seq<u8> {
    spec_u32_le(us.len() as u32) + spec_infos_cat(us)
}

pub fn encode_unit_list(units: &Vec<UnitInfo>) -> (r: Vec<u8>)
    requires
        units@.len() <= 0xffff_ffff,
        forall|k: int| 0 <= k < units@.len() ==> unit_info_encodable(#[trigger] units@[k]),
    ensures
        r@ == spec_unit_list_bytes(units@),
{
    let mut out: Vec<u8> = Vec::new();
    push_u32(&mut out, units.len() as u32);
    let ghost base = out@;
    let mut i: usize = 0;
    while i < units.len()
        invariant
            units@.len() <= 0xffff_ffff,
            forall|k: int| 0 <= k < units@.len() ==> unit_info_encodable(#[trigger] units@[k]),
            0 <= i <= units@.len(),
            out@ == base + spec_infos_cat(units@.take(i as int)),
        decreases units@.len() - i,
    {
        push_unit_info(&mut out, &units[i]);
        proof {
            assert(units@.take(i + 1).drop_last() =~= units@.take(i as int));
            assert(units@.take(i + 1).last() == units@[i as int]);
            assert(out@ =~= base + spec_infos_cat(units@.take(i + 1)));
        }
        i = i + 1;
    }
    proof {
        assert(units@.take(units@.len() as int) =~= units@);
        assert(out@ =~= spec_unit_list_bytes(units@));
    }
    out
}

/// Every snapshot of the list fits its length fields, and so does
/// the count.
pub open spec fn infos_encodable(us: Seq<UnitInfo>) -> bool {
    &&& us.len() <= 0xffff_ffff
    &&& forall|q: int| 0 <= q < us.len() ==> unit_info_encodable(#[trigger] us[q])
}

/// The concatenation of snapshot encodings, read from the front.
proof fn lemma_infos_cat_front(us: Seq<UnitInfo>)
    requires
        us.len() > 0,
    ensures
        spec_infos_cat(us) == spec_unit_info_bytes(us[0]) + spec_infos_cat(us.drop_first()),
    decreases us.len(),
{
    if us.len() == 1 {
        assert(us.drop_last() =~= Seq::<UnitInfo>::empty());
        assert(us.drop_first() =~= Seq::<UnitInfo>::empty());
        assert(spec_infos_cat(us) =~= spec_unit_info_bytes(us[0]) + spec_infos_cat(
            us.drop_first(),
        ));
    } else {
        lemma_infos_cat_front(us.drop_last());
        assert(us.drop_last()[0] == us[0]);
        assert(us.drop_last().drop_first() =~= us.drop_first().drop_last());
        assert(us.drop_first().last() == us.last());
        assert(spec_infos_cat(us) =~= spec_unit_info_bytes(us[0]) + spec_infos_cat(
            us.drop_first(),
        ));
    }
}

/// A concatenation of snapshot encodings splits at any position.
proof fn lemma_infos_cat_split(us: Seq<UnitInfo>, i: int)
    requires
        0 <= i <= us.len(),
    ensures
        spec_infos_cat(us) == spec_infos_cat(us.take(i)) + spec_infos_cat(us.skip(i)),
    decreases us.len() - i,
{
    if i == us.len() {
        assert(us.take(i) =~= us);
        assert(us.skip(i) =~= Seq::<UnitInfo>::empty());
        assert(spec_infos_cat(us) =~= spec_infos_cat(us.take(i)) + spec_infos_cat(us.skip(i)));
    } else {
        lemma_infos_cat_split(us, i + 1);
        assert(us.take(i + 1).drop_last() =~= us.take(i));
        assert(us.take(i + 1).last() == us[i]);
        lemma_infos_cat_front(us.skip(i));
        assert(us.skip(i)[0] == us[i]);
        assert(us.skip(i).drop_first() =~= us.skip(i + 1));
        assert(spec_infos_cat(us) =~= spec_infos_cat(us.take(i)) + spec_infos_cat(us.skip(i)));
    }
}

/// Decodes a list-units reply payload.  An empty buffer reads as the
/// empty list, as an absent body does on the wire; otherwise exactly
/// the encodings of snapshot lists decode.
#[verifier::rlimit(100)]
#[verifier::spinoff_prover]
pub fn decode_unit_list(bytes: &Vec<u8>) -> (r: Option<Vec<UnitInfo>>)
    ensures
        r matches Some(units) ==> (bytes@.len() == 0 && units@.len() == 0) || bytes@
            == spec_unit_list_bytes(units@),
        r matches Some(units) ==> infos_encodable(units@),
        r is None ==> bytes@.len() != 0 && forall|ul: Seq<UnitInfo>|
            infos_encodable(ul) ==> bytes@ != spec_unit_list_bytes(ul),
{
    if bytes.len() == 0 {
        return Some(Vec::new());
    }
    let count_read = read_u32(bytes, 0);
    let (count, mut cursor) = match count_read {
        Some(v) => v,
        None => {
            proof {
                assert forall|ul: Seq<UnitInfo>|
                    infos_encodable(ul) implies bytes@ != spec_unit_list_bytes(ul) by {
                    if bytes@ == spec_unit_list_bytes(ul) {
                        assert(bytes@.subrange(0, 4) =~= spec_u32_le(ul.len() as u32));
                        assert(starts_with_at(bytes@, 0, spec_u32_le(ul.len() as u32)));
                    }
                }
            }
            return None;
        },
    };
    let mut units: Vec<UnitInfo> = Vec::new();
    proof {
        assert forall|ul: Seq<UnitInfo>|
            infos_encodable(ul) && bytes@ == spec_unit_list_bytes(ul) implies ul.len() == count
            && spec_infos_cat(ul.take(0)) == spec_infos_cat(units@) by {
            assert(bytes@.subrange(0, 4) =~= spec_u32_le(ul.len() as u32));
            crate::rpc::codec::lemma_u32_le_inj(ul.len() as u32, count);
            assert(ul.take(0) =~= Seq::<UnitInfo>::empty());
            assert(spec_infos_cat(ul.take(0)) =~= spec_infos_cat(units@));
        }
    }
    let mut i: u32 = 0;
    while i < count
        invariant
            0 <= i <= count,
            units@.len() == i,
            4 <= cursor <= bytes@.len(),
            bytes@.subrange(4, cursor as int) == spec_infos_cat(units@),
            infos_encodable(units@),
            forall|ul: Seq<UnitInfo>|
                infos_encodable(ul) && bytes@ == #[trigger] spec_unit_list_bytes(ul) ==> ul.len()
                    == count && spec_infos_cat(ul.take(i as int)) == spec_infos_cat(units@),
        decreases count - i,
    {
        let ghost prev_cursor = cursor;
        let ghost prev_units = units@;
        let item_read = read_unit_info(bytes, cursor);
        proof {
            assert forall|ul: Seq<UnitInfo>|
                infos_encodable(ul) && bytes@ == #[trigger] spec_unit_list_bytes(
                    ul,
                ) implies starts_with_at(
                bytes@,
                prev_cursor as int,
                spec_unit_info_bytes(ul[i as int]),
            ) by {
                assert(bytes@.subrange(4, bytes@.len() as int) =~= spec_infos_cat(ul));
                lemma_infos_cat_split(ul, i as int);
                assert(spec_infos_cat(ul.take(i as int)) == spec_infos_cat(prev_units));
                lemma_infos_cat_front(ul.skip(i as int));
                assert(ul.skip(i as int)[0] == ul[i as int]);
                crate::rpc::codec::lemma_prefix_piece(
                    bytes@,
                    4,
                    spec_infos_cat(ul),
                    spec_infos_cat(ul.take(i as int)).len() as int,
                    spec_infos_cat(ul.take(i as int)).len() + spec_unit_info_bytes(
                        ul[i as int],
                    ).len() as int,
                );
                assert(spec_infos_cat(ul).subrange(
                    spec_infos_cat(ul.take(i as int)).len() as int,
                    spec_infos_cat(ul.take(i as int)).len() + spec_unit_info_bytes(
                        ul[i as int],
                    ).len() as int,
                ) =~= spec_unit_info_bytes(ul[i as int]));
            }
        }
        match item_read {
            Some((u, next)) => {
                units.push(u);
                proof {
                    assert(units@.drop_last() =~= prev_units);
                    lemma_join2(
                        bytes@,
                        4,
                        prev_cursor as int,
                        next as int,
                        spec_infos_cat(prev_units),
                        spec_unit_info_bytes(u),
                    );
                    assert(infos_encodable(units@)) by {
                        assert forall|q: int|
                            0 <= q < units@.len() implies unit_info_encodable(
                            #[trigger] units@[q],
                        ) by {
                            if q < prev_units.len() {
                                assert(units@[q] == prev_units[q]);
                            } else {
                                assert(units@[q] == u);
                            }
                        }
                    }
                    assert forall|ul: Seq<UnitInfo>|
                        infos_encodable(ul) && bytes@ == #[trigger] spec_unit_list_bytes(
                            ul,
                        ) implies spec_infos_cat(ul.take(i + 1)) == spec_infos_cat(units@) by {
                        lemma_unit_info_enc_unique(
                            bytes@,
                            prev_cursor as int,
                            ul[i as int],
                            u,
                        );
                        assert(ul.take(i + 1).drop_last() =~= ul.take(i as int));
                        assert(ul.take(i + 1).last() == ul[i as int]);
                        assert(spec_infos_cat(ul.take(i + 1)) == spec_infos_cat(ul.take(i as int))
                            + spec_unit_info_bytes(ul[i as int]));
                        assert(spec_infos_cat(units@) =~= spec_infos_cat(prev_units)
                            + spec_unit_info_bytes(u));
                    }
                }
                cursor = next;
            },
            None => {
                proof {
                    assert forall|ul: Seq<UnitInfo>|
                        infos_encodable(ul) implies bytes@ != spec_unit_list_bytes(ul) by {
                        if bytes@ == spec_unit_list_bytes(ul) {
                            assert(starts_with_at(
                                bytes@,
                                prev_cursor as int,
                                spec_unit_info_bytes(ul[i as int]),
                            ));
                            assert(unit_info_encodable(ul[i as int]));
                        }
                    }
                }
                return None;
            },
        }
        i = i + 1;
    }
    if cursor != bytes.len() {
        proof {
            assert forall|ul: Seq<UnitInfo>|
                infos_encodable(ul) implies bytes@ != spec_unit_list_bytes(ul) by {
                if bytes@ == spec_unit_list_bytes(ul) {
                    assert(ul.take(count as int) =~= ul);
                    assert(spec_infos_cat(ul) == spec_infos_cat(units@));
                    assert(bytes@.len() == 4 + spec_infos_cat(ul).len());
                }
            }
        }
        return None;
    }
    proof {
        lemma_join2(bytes@, 0, 4, cursor as int, spec_u32_le(count), spec_infos_cat(units@));
        assert(count == units@.len() as u32);
        assert(bytes@.subrange(0, bytes@.len() as int) =~= bytes@);
    }
    Some(units)
}

/// A one-string payload: what the ping, start-unit and stop-unit
/// messages carry.
pub open spec fn spec_text_payload_bytes(text: Seq<char>) -> Seq<u8> {
    spec_string_bytes(text)
}

/// `data` reads as the one-string payload `text`: it is the
/// encoding, or it is empty and the text defaults to empty.
pub open spec fn spec_payload_is(data: Seq<u8>, text: Seq<char>) -> bool {
    ||| (data.len() == 0 && text.len() == 0)
    ||| (encode_utf8(text).len() <= 0xffff_ffff && data == spec_text_payload_bytes(text))
}

/// Some text reads out of `data`.
pub open spec fn spec_text_decodes(data: Seq<u8>) -> bool {
    exists|t: Seq<char>| spec_payload_is(data, t)
}

/// At most one text reads out of a payload: the encoding pins the
/// byte length of the text and UTF-8 decoding is a function.
pub proof fn lemma_payload_text_unique(data: Seq<u8>, t1: Seq<char>, t2: Seq<char>)
    requires
        spec_payload_is(data, t1),
        spec_payload_is(data, t2),
    ensures
        t1 == t2,
{
    if data.len() == 0 {
    } else {
        assert(spec_string_bytes(t1) == spec_string_bytes(t2));
        assert(spec_string_bytes(t1).subrange(4, spec_string_bytes(t1).len() as int)
            =~= encode_utf8(t1));
        assert(spec_string_bytes(t2).subrange(4, spec_string_bytes(t2).len() as int)
            =~= encode_utf8(t2));
        assert(encode_utf8(t1) == encode_utf8(t2));
        vstd::utf8::encode_utf8_decode_utf8(t1);
        vstd::utf8::encode_utf8_decode_utf8(t2);
    }
}

/// Encodes a one-string payload.
pub fn encode_text_payload(text: &String) -> (r: Vec<u8>)
    requires
        encode_utf8(text@).len() <= 0xffff_ffff,
    ensures
        r@ == spec_text_payload_bytes(text@),
{
    let mut out: Vec<u8> = Vec::new();
    push_string(&mut out, text);
    assert(out@ =~= spec_text_payload_bytes(text@));
    out
}

/// Decodes a one-string payload.  An empty buffer reads as the
/// defaulted message — the empty string — as an absent body does on
/// the wire; otherwise exactly the encodings decode.
pub fn decode_text_payload(bytes: &Vec<u8>) -> (r: Option<String>)
    ensures
        r matches Some(text) ==> (bytes@.len() == 0 && text@.len() == 0) || bytes@
            == spec_text_payload_bytes(text@),
        r matches Some(text) ==> encode_utf8(text@).len() <= 0xffff_ffff,
        r matches Some(text) ==> spec_payload_is(bytes@, text@),
        r is Some <==> spec_text_decodes(bytes@),
        r is None ==> bytes@.len() != 0 && forall|t: Seq<char>|
            encode_utf8(t).len() <= 0xffff_ffff ==> bytes@ != spec_text_payload_bytes(t),
{
    if bytes.len() == 0 {
        let empty = String::new();
        proof {
            assert(spec_payload_is(bytes@, empty@));
        }
        return Some(empty);
    }
    let text_read = read_string(bytes, 0);
    match text_read {
        None => {
            proof {
                assert forall|t: Seq<char>|
                    encode_utf8(t).len() <= 0xffff_ffff implies bytes@
                    != spec_text_payload_bytes(t) by {
                    if bytes@ == spec_text_payload_bytes(t) {
                        assert(bytes@.subrange(0, bytes@.len() as int) =~= bytes@);
                        assert(starts_with_at(bytes@, 0, spec_string_bytes(t)));
                    }
                }
                if spec_text_decodes(bytes@) {
                    let t = choose|t: Seq<char>| spec_payload_is(bytes@, t);
                    assert(bytes@ == spec_text_payload_bytes(t));
                }
            }
            None
        },
        Some((text, next)) => {
            if next != bytes.len() {
                proof {
                    assert forall|t: Seq<char>|
                        encode_utf8(t).len() <= 0xffff_ffff implies bytes@
                        != spec_text_payload_bytes(t) by {
                        if bytes@ == spec_text_payload_bytes(t) {
                            assert(bytes@.subrange(0, 4) =~= spec_u32_le(
                                encode_utf8(t).len() as u32,
                            ));
                            assert(starts_with_at(bytes@, 0, spec_string_bytes(text@)));
                            crate::rpc::codec::lemma_prefix_piece(
                                bytes@,
                                0,
                                spec_string_bytes(text@),
                                0,
                                4,
                            );
                            assert(spec_string_bytes(text@).subrange(0, 4) =~= spec_u32_le(
                                encode_utf8(text@).len() as u32,
                            ));
                            crate::rpc::codec::lemma_u32_le_inj(
                                encode_utf8(t).len() as u32,
                                encode_utf8(text@).len() as u32,
                            );
                        }
                    }
                    if spec_text_decodes(bytes@) {
                        let t = choose|t: Seq<char>| spec_payload_is(bytes@, t);
                        assert(bytes@ == spec_text_payload_bytes(t));
                    }
                }
                return None;
            }
            proof {
                assert(bytes@.subrange(0, bytes@.len() as int) =~= bytes@);
                assert(spec_payload_is(bytes@, text@));
            }
            Some(text)
        },
    }
}

} // verus!
