//! Requests: the header, and one decoder for each kind of payload.
//!
//! A serve loop reads a frame, splits it with [`rsi_parse_request`], and hands the
//! payload to the decoder that its op-code calls for. The kernel's own parser reads the
//! wire form, so that what is accepted here is what the kernel means; its findings come
//! in as `parsed`, or as `None` where it refused the bytes. Nothing is copied: every
//! name and every piece of data lies in the frame, and is valid until the frame is
//! reused.
//!
//! `None` for `req` or `out` stands for NULL.
use vstd::prelude::*;

use crate::c_array::{c_array_valid, c_array_view, c_slice};
use crate::errno::Errno;
use crate::guids::Guid;
use crate::vocabulary::{RSI_REQUEST_HEADER_SIZE, RSI_TXN_READ_ONLY, RSI_TXN_READ_WRITE};

verus! {

/// A received request: the header the kernel stamped on it, and the payload behind it.
pub struct rsi_request<'a> {
    /// The kernel's id for the request, which the response repeats.
    pub request_id: u64,
    /// The transaction it belongs to, or 0.
    pub txn_id: u64,
    /// The payload, which lies in the frame; valid until the frame is reused.
    pub payload: Option<&'a [u8]>,
    /// Length of the payload in bytes.
    pub payload_len: u32,
    /// What is asked for.
    pub op_code: u16,
}

/// What the kernel's parser finds in a request header.
pub struct RequestHeader {
    pub request_id: u64,
    pub txn_id: u64,
    pub op_code: u16,
}

/// The outcome of a decoder: a NULL argument is `EINVAL`, and otherwise what the parser
/// refused is `EBADMSG`.
pub open spec fn decoded(req: bool, parsed: bool, out: bool) -> Result<(), Errno> {
    if !req || !out {
        Err(Errno::EINVAL)
    } else if !parsed {
        Err(Errno::EBADMSG)
    } else {
        Ok(())
    }
}

/// `ptr` and `len` hand out the field `data`: the pointer is to its bytes, and the
/// length is its length as a 32-bit number.
pub open spec fn is_field(data: &[u8], ptr: Option<&[u8]>, len: u32) -> bool {
    &&& ptr == Some(data)
    &&& len == data.len() as u32
    &&& c_array_valid(ptr, len)
    &&& data@.len() <= u32::MAX ==> c_array_view(ptr, len) == data@
}

/// A flag as a byte.
pub open spec fn flag(set: bool) -> u8 {
    if set {
        1
    } else {
        0
    }
}

/// A flag as a byte.
fn flag_byte(set: bool) -> (byte: u8)
    ensures
        byte == flag(set),
{
    if set {
        1
    } else {
        0
    }
}

/// The low 32 bits of a number are at most the number.
proof fn lemma_low_bits(n: usize)
    ensures
        n as u32 <= n,
        n <= u32::MAX ==> n as u32 == n,
{
    assert(n as u32 <= n) by (bit_vector);
}

/// A field that lies in the frame, as a pointer and a length.
fn lpf<'a>(f: &'a [u8]) -> (r: (Option<&'a [u8]>, u32))
    ensures
        is_field(f, r.0, r.1),
{
    let len: usize = f.len();
    proof {
        lemma_low_bits(len);
        assert(f@.take(len as int) =~= f@);
    }
    (Some(f), #[verifier::truncate] (len as u32))
}

/// The payload of a request: empty where its pointer is NULL, `None` only where the
/// request itself is.
pub fn req_payload<'a>(req: Option<&rsi_request<'a>>) -> (r: Option<&'a [u8]>)
    requires
        req matches Some(q) ==> c_array_valid(q.payload, q.payload_len),
    ensures
        match (req, r) {
            (Some(q), Some(p)) => p@ == c_array_view(q.payload, q.payload_len),
            (None, None) => true,
            _ => false,
        },
{
    match req {
        Some(q) => Some(c_slice(q.payload, q.payload_len)),
        None => None,
    }
}

/// Splits a frame into its header and its payload. `header` is what the kernel's parser
/// makes of the frame: the fields of the header, or `None` where it refuses it.
pub fn rsi_parse_request<'a>(
    frame: Option<&'a [u8]>,
    header: Option<RequestHeader>,
    out: Option<&mut rsi_request<'a>>,
) -> (r: Result<(), Errno>)
    ensures
        r == (match frame {
            Some(f) => decoded(true, header is Some && f@.len() >= 22, out is Some),
            None => Err(Errno::EINVAL),
        }),
        out matches Some(o) ==> match (r, frame, header) {
            (Ok(_), Some(f), Some(h)) => {
                &&& final(o).request_id == h.request_id
                &&& final(o).txn_id == h.txn_id
                &&& final(o).op_code == h.op_code
                &&& final(o).payload matches Some(p) && p@ == f@.skip(22)
                &&& final(o).payload_len == (f.len() - 22) as u32
                &&& c_array_valid(final(o).payload, final(o).payload_len)
                &&& f@.len() - 22 <= u32::MAX ==> c_array_view(
                    final(o).payload,
                    final(o).payload_len,
                ) == f@.skip(22)
            },
            _ => *final(o) == *o,
        },
{
    match (out, frame) {
        (Some(out), Some(f)) => match header {
            Some(h) => {
                let len: usize = f.len();
                if len < RSI_REQUEST_HEADER_SIZE {
                    return Err(Errno::EBADMSG);
                }
                let payload: &'a [u8] = vstd::slice::slice_subrange(
                    f,
                    RSI_REQUEST_HEADER_SIZE,
                    len,
                );
                let rest: usize = len - RSI_REQUEST_HEADER_SIZE;
                proof {
                    lemma_low_bits(rest);
                    assert(payload@ =~= f@.skip(22));
                    assert(payload@.take(rest as int) =~= payload@);
                }
                out.request_id = h.request_id;
                out.txn_id = h.txn_id;
                out.op_code = h.op_code;
                out.payload = Some(payload);
                out.payload_len = #[verifier::truncate] (rest as u32);
                Ok(())
            },
            None => Err(Errno::EBADMSG),
        },
        _ => Err(Errno::EINVAL),
    }
}

/// LOOKUP: whether `child_name` is visible under `parent_guid`.
pub struct rsi_lookup<'a> {
    pub parent_guid: Guid,
    pub child_name: Option<&'a [u8]>,
    pub child_name_len: u32,
}

/// What the kernel's parser finds in a LOOKUP payload.
pub struct LookupPayload<'a> {
    pub parent_guid: Guid,
    pub child_name: &'a [u8],
}

/// Decodes a LOOKUP request.
pub fn rsi_request_lookup<'a>(
    req: Option<&rsi_request<'a>>,
    parsed: Option<LookupPayload<'a>>,
    out: Option<&mut rsi_lookup<'a>>,
) -> (r: Result<(), Errno>)
    ensures
        r == decoded(req is Some, parsed is Some, out is Some),
        out matches Some(o) ==> match (r, parsed) {
            (Ok(_), Some(v)) => {
                &&& final(o).parent_guid == v.parent_guid
                &&& is_field(v.child_name, final(o).child_name, final(o).child_name_len)
            },
            _ => *final(o) == *o,
        },
{
    match (req, out) {
        (Some(_), Some(out)) => match parsed {
            Some(v) => {
                let child_name: (Option<&'a [u8]>, u32) = lpf(v.child_name);
                out.parent_guid = v.parent_guid;
                out.child_name = child_name.0;
                out.child_name_len = child_name.1;
                Ok(())
            },
            None => Err(Errno::EBADMSG),
        },
        _ => Err(Errno::EINVAL),
    }
}

/// CREATE_ENTRY: bind `child_name` to `child_guid` in `layer_name`.
pub struct rsi_create_entry<'a> {
    pub parent_guid: Guid,
    pub child_guid: Guid,
    pub child_name: Option<&'a [u8]>,
    pub child_name_len: u32,
    pub layer_name: Option<&'a [u8]>,
    pub layer_name_len: u32,
    pub sequence: u64,
}

/// What the kernel's parser finds in a CREATE_ENTRY payload.
pub struct CreateEntryPayload<'a> {
    pub parent_guid: Guid,
    pub child_guid: Guid,
    pub child_name: &'a [u8],
    pub layer_name: &'a [u8],
    pub sequence: u64,
}

/// Decodes a CREATE_ENTRY request.
pub fn rsi_request_create_entry<'a>(
    req: Option<&rsi_request<'a>>,
    parsed: Option<CreateEntryPayload<'a>>,
    out: Option<&mut rsi_create_entry<'a>>,
) -> (r: Result<(), Errno>)
    ensures
        r == decoded(req is Some, parsed is Some, out is Some),
        out matches Some(o) ==> match (r, parsed) {
            (Ok(_), Some(v)) => {
                &&& final(o).parent_guid == v.parent_guid
                &&& final(o).child_guid == v.child_guid
                &&& is_field(v.child_name, final(o).child_name, final(o).child_name_len)
                &&& is_field(v.layer_name, final(o).layer_name, final(o).layer_name_len)
                &&& final(o).sequence == v.sequence
            },
            _ => *final(o) == *o,
        },
{
    match (req, out) {
        (Some(_), Some(out)) => match parsed {
            Some(v) => {
                let child_name: (Option<&'a [u8]>, u32) = lpf(v.child_name);
                let layer_name: (Option<&'a [u8]>, u32) = lpf(v.layer_name);
                out.parent_guid = v.parent_guid;
                out.child_guid = v.child_guid;
                out.child_name = child_name.0;
                out.child_name_len = child_name.1;
                out.layer_name = layer_name.0;
                out.layer_name_len = layer_name.1;
                out.sequence = v.sequence;
                Ok(())
            },
            None => Err(Errno::EBADMSG),
        },
        _ => Err(Errno::EINVAL),
    }
}

/// HIDE_ENTRY: tombstone `child_name` in `layer_name`.
pub struct rsi_hide_entry<'a> {
    pub parent_guid: Guid,
    pub child_name: Option<&'a [u8]>,
    pub child_name_len: u32,
    pub layer_name: Option<&'a [u8]>,
    pub layer_name_len: u32,
    pub sequence: u64,
}

/// What the kernel's parser finds in a HIDE_ENTRY payload.
pub struct HideEntryPayload<'a> {
    pub parent_guid: Guid,
    pub child_name: &'a [u8],
    pub layer_name: &'a [u8],
    pub sequence: u64,
}

/// Decodes a HIDE_ENTRY request.
pub fn rsi_request_hide_entry<'a>(
    req: Option<&rsi_request<'a>>,
    parsed: Option<HideEntryPayload<'a>>,
    out: Option<&mut rsi_hide_entry<'a>>,
) -> (r: Result<(), Errno>)
    ensures
        r == decoded(req is Some, parsed is Some, out is Some),
        out matches Some(o) ==> match (r, parsed) {
            (Ok(_), Some(v)) => {
                &&& final(o).parent_guid == v.parent_guid
                &&& is_field(v.child_name, final(o).child_name, final(o).child_name_len)
                &&& is_field(v.layer_name, final(o).layer_name, final(o).layer_name_len)
                &&& final(o).sequence == v.sequence
            },
            _ => *final(o) == *o,
        },
{
    match (req, out) {
        (Some(_), Some(out)) => match parsed {
            Some(v) => {
                let child_name: (Option<&'a [u8]>, u32) = lpf(v.child_name);
                let layer_name: (Option<&'a [u8]>, u32) = lpf(v.layer_name);
                out.parent_guid = v.parent_guid;
                out.child_name = child_name.0;
                out.child_name_len = child_name.1;
                out.layer_name = layer_name.0;
                out.layer_name_len = layer_name.1;
                out.sequence = v.sequence;
                Ok(())
            },
            None => Err(Errno::EBADMSG),
        },
        _ => Err(Errno::EINVAL),
    }
}

/// DELETE_ENTRY: remove the entry of `child_name` in `layer_name`.
pub struct rsi_delete_entry<'a> {
    pub parent_guid: Guid,
    pub child_name: Option<&'a [u8]>,
    pub child_name_len: u32,
    pub layer_name: Option<&'a [u8]>,
    pub layer_name_len: u32,
}

/// What the kernel's parser finds in a DELETE_ENTRY payload.
pub struct DeleteEntryPayload<'a> {
    pub parent_guid: Guid,
    pub child_name: &'a [u8],
    pub layer_name: &'a [u8],
}

/// Decodes a DELETE_ENTRY request.
pub fn rsi_request_delete_entry<'a>(
    req: Option<&rsi_request<'a>>,
    parsed: Option<DeleteEntryPayload<'a>>,
    out: Option<&mut rsi_delete_entry<'a>>,
) -> (r: Result<(), Errno>)
    ensures
        r == decoded(req is Some, parsed is Some, out is Some),
        out matches Some(o) ==> match (r, parsed) {
            (Ok(_), Some(v)) => {
                &&& final(o).parent_guid == v.parent_guid
                &&& is_field(v.child_name, final(o).child_name, final(o).child_name_len)
                &&& is_field(v.layer_name, final(o).layer_name, final(o).layer_name_len)
            },
            _ => *final(o) == *o,
        },
{
    match (req, out) {
        (Some(_), Some(out)) => match parsed {
            Some(v) => {
                let child_name: (Option<&'a [u8]>, u32) = lpf(v.child_name);
                let layer_name: (Option<&'a [u8]>, u32) = lpf(v.layer_name);
                out.parent_guid = v.parent_guid;
                out.child_name = child_name.0;
                out.child_name_len = child_name.1;
                out.layer_name = layer_name.0;
                out.layer_name_len = layer_name.1;
                Ok(())
            },
            None => Err(Errno::EBADMSG),
        },
        _ => Err(Errno::EINVAL),
    }
}

/// ENUM_CHILDREN: list the children of `parent_guid`.
pub struct rsi_enum_children {
    pub parent_guid: Guid,
}

/// Decodes an ENUM_CHILDREN request: list the children of `parent_guid`.
pub fn rsi_request_enum_children<'a>(
    req: Option<&rsi_request<'a>>,
    parsed: Option<Guid>,
    out: Option<&mut rsi_enum_children>,
) -> (r: Result<(), Errno>)
    ensures
        r == decoded(req is Some, parsed is Some, out is Some),
        out matches Some(o) ==> match (r, parsed) {
            (Ok(_), Some(v)) => final(o).parent_guid == v,
            _ => *final(o) == *o,
        },
{
    match (req, out) {
        (Some(_), Some(out)) => match parsed {
            Some(v) => {
                out.parent_guid = v;
                Ok(())
            },
            None => Err(Errno::EBADMSG),
        },
        _ => Err(Errno::EINVAL),
    }
}

/// CREATE_KEY: create the metadata record of the key `guid` under `parent_guid`.
pub struct rsi_create_key<'a> {
    pub guid: Guid,
    pub parent_guid: Guid,
    pub name: Option<&'a [u8]>,
    pub name_len: u32,
    pub sd: Option<&'a [u8]>,
    pub sd_len: u32,
    pub volatile_key: u8,
    pub symlink: u8,
}

/// What the kernel's parser finds in a CREATE_KEY payload.
pub struct CreateKeyPayload<'a> {
    pub guid: Guid,
    pub parent_guid: Guid,
    pub name: &'a [u8],
    pub sd: &'a [u8],
    pub volatile_key: bool,
    pub symlink: bool,
}

/// Decodes a CREATE_KEY request.
pub fn rsi_request_create_key<'a>(
    req: Option<&rsi_request<'a>>,
    parsed: Option<CreateKeyPayload<'a>>,
    out: Option<&mut rsi_create_key<'a>>,
) -> (r: Result<(), Errno>)
    ensures
        r == decoded(req is Some, parsed is Some, out is Some),
        out matches Some(o) ==> match (r, parsed) {
            (Ok(_), Some(v)) => {
                &&& final(o).guid == v.guid
                &&& final(o).parent_guid == v.parent_guid
                &&& is_field(v.name, final(o).name, final(o).name_len)
                &&& is_field(v.sd, final(o).sd, final(o).sd_len)
                &&& final(o).volatile_key == flag(v.volatile_key)
                &&& final(o).symlink == flag(v.symlink)
            },
            _ => *final(o) == *o,
        },
{
    match (req, out) {
        (Some(_), Some(out)) => match parsed {
            Some(v) => {
                let name: (Option<&'a [u8]>, u32) = lpf(v.name);
                let sd: (Option<&'a [u8]>, u32) = lpf(v.sd);
                out.guid = v.guid;
                out.parent_guid = v.parent_guid;
                out.name = name.0;
                out.name_len = name.1;
                out.sd = sd.0;
                out.sd_len = sd.1;
                out.volatile_key = flag_byte(v.volatile_key);
                out.symlink = flag_byte(v.symlink);
                Ok(())
            },
            None => Err(Errno::EBADMSG),
        },
        _ => Err(Errno::EINVAL),
    }
}

/// A request that carries only the GUID of a key.
pub struct rsi_key_guid {
    pub guid: Guid,
}

/// Decodes a READ_KEY request: read the metadata of the key `guid`.
pub fn rsi_request_read_key<'a>(
    req: Option<&rsi_request<'a>>,
    parsed: Option<Guid>,
    out: Option<&mut rsi_key_guid>,
) -> (r: Result<(), Errno>)
    ensures
        r == decoded(req is Some, parsed is Some, out is Some),
        out matches Some(o) ==> match (r, parsed) {
            (Ok(_), Some(v)) => final(o).guid == v,
            _ => *final(o) == *o,
        },
{
    match (req, out) {
        (Some(_), Some(out)) => match parsed {
            Some(v) => {
                out.guid = v;
                Ok(())
            },
            None => Err(Errno::EBADMSG),
        },
        _ => Err(Errno::EINVAL),
    }
}

/// Decodes a DROP_KEY request: purge all data of the orphaned key `guid`.
pub fn rsi_request_drop_key<'a>(
    req: Option<&rsi_request<'a>>,
    parsed: Option<Guid>,
    out: Option<&mut rsi_key_guid>,
) -> (r: Result<(), Errno>)
    ensures
        r == decoded(req is Some, parsed is Some, out is Some),
        out matches Some(o) ==> match (r, parsed) {
            (Ok(_), Some(v)) => final(o).guid == v,
            _ => *final(o) == *o,
        },
{
    match (req, out) {
        (Some(_), Some(out)) => match parsed {
            Some(v) => {
                out.guid = v;
                Ok(())
            },
            None => Err(Errno::EBADMSG),
        },
        _ => Err(Errno::EINVAL),
    }
}

/// WRITE_KEY: update the fields of the key `guid` that `field_mask` names.
pub struct rsi_write_key<'a> {
    pub guid: Guid,
    /// Which of the fields below are valid.
    pub field_mask: u32,
    /// The new security descriptor; NULL where the mask does not name it.
    pub sd: Option<&'a [u8]>,
    pub sd_len: u32,
    /// The new last-write time; 0 where the mask does not name it.
    pub last_write_time: u64,
}

/// What the kernel's parser finds in a WRITE_KEY payload.
pub struct WriteKeyPayload<'a> {
    pub guid: Guid,
    pub field_mask: u32,
    pub sd: Option<&'a [u8]>,
    pub last_write_time: Option<u64>,
}

/// Decodes a WRITE_KEY request.
pub fn rsi_request_write_key<'a>(
    req: Option<&rsi_request<'a>>,
    parsed: Option<WriteKeyPayload<'a>>,
    out: Option<&mut rsi_write_key<'a>>,
) -> (r: Result<(), Errno>)
    ensures
        r == decoded(req is Some, parsed is Some, out is Some),
        out matches Some(o) ==> match (r, parsed) {
            (Ok(_), Some(v)) => {
                &&& final(o).guid == v.guid
                &&& final(o).field_mask == v.field_mask
                &&& match v.sd {
                    Some(sd) => is_field(sd, final(o).sd, final(o).sd_len),
                    None => final(o).sd is None && final(o).sd_len == 0,
                }
                &&& final(o).last_write_time == (match v.last_write_time {
                    Some(time) => time,
                    None => 0,
                })
            },
            _ => *final(o) == *o,
        },
{
    match (req, out) {
        (Some(_), Some(out)) => match parsed {
            Some(v) => {
                out.guid = v.guid;
                out.field_mask = v.field_mask;
                match v.sd {
                    Some(f) => {
                        let sd: (Option<&'a [u8]>, u32) = lpf(f);
                        out.sd = sd.0;
                        out.sd_len = sd.1;
                    },
                    None => {
                        out.sd = None;
                        out.sd_len = 0;
                    },
                }
                out.last_write_time = match v.last_write_time {
                    Some(time) => time,
                    None => 0,
                };
                Ok(())
            },
            None => Err(Errno::EBADMSG),
        },
        _ => Err(Errno::EINVAL),
    }
}

/// QUERY_VALUES: read `value_name` of the key `guid`, or all of its values where `query_all` is 1.
pub struct rsi_query_values<'a> {
    pub guid: Guid,
    pub value_name: Option<&'a [u8]>,
    pub value_name_len: u32,
    pub query_all: u8,
}

/// What the kernel's parser finds in a QUERY_VALUES payload.
pub struct QueryValuesPayload<'a> {
    pub guid: Guid,
    pub value_name: &'a [u8],
    pub query_all: bool,
}

/// Decodes a QUERY_VALUES request.
pub fn rsi_request_query_values<'a>(
    req: Option<&rsi_request<'a>>,
    parsed: Option<QueryValuesPayload<'a>>,
    out: Option<&mut rsi_query_values<'a>>,
) -> (r: Result<(), Errno>)
    ensures
        r == decoded(req is Some, parsed is Some, out is Some),
        out matches Some(o) ==> match (r, parsed) {
            (Ok(_), Some(v)) => {
                &&& final(o).guid == v.guid
                &&& is_field(v.value_name, final(o).value_name, final(o).value_name_len)
                &&& final(o).query_all == flag(v.query_all)
            },
            _ => *final(o) == *o,
        },
{
    match (req, out) {
        (Some(_), Some(out)) => match parsed {
            Some(v) => {
                let value_name: (Option<&'a [u8]>, u32) = lpf(v.value_name);
                out.guid = v.guid;
                out.value_name = value_name.0;
                out.value_name_len = value_name.1;
                out.query_all = flag_byte(v.query_all);
                Ok(())
            },
            None => Err(Errno::EBADMSG),
        },
        _ => Err(Errno::EINVAL),
    }
}

/// SET_VALUE: store `value_name` in `layer_name`. A nonzero `expected_sequence` makes it a compare-and-swap.
pub struct rsi_set_value<'a> {
    pub guid: Guid,
    pub value_name: Option<&'a [u8]>,
    pub value_name_len: u32,
    pub layer_name: Option<&'a [u8]>,
    pub layer_name_len: u32,
    pub value_type: u32,
    pub data: Option<&'a [u8]>,
    pub data_len: u32,
    pub sequence: u64,
    pub expected_sequence: u64,
}

/// What the kernel's parser finds in a SET_VALUE payload.
pub struct SetValuePayload<'a> {
    pub guid: Guid,
    pub value_name: &'a [u8],
    pub layer_name: &'a [u8],
    pub value_type: u32,
    pub data: &'a [u8],
    pub sequence: u64,
    pub expected_sequence: u64,
}

/// Decodes a SET_VALUE request.
pub fn rsi_request_set_value<'a>(
    req: Option<&rsi_request<'a>>,
    parsed: Option<SetValuePayload<'a>>,
    out: Option<&mut rsi_set_value<'a>>,
) -> (r: Result<(), Errno>)
    ensures
        r == decoded(req is Some, parsed is Some, out is Some),
        out matches Some(o) ==> match (r, parsed) {
            (Ok(_), Some(v)) => {
                &&& final(o).guid == v.guid
                &&& is_field(v.value_name, final(o).value_name, final(o).value_name_len)
                &&& is_field(v.layer_name, final(o).layer_name, final(o).layer_name_len)
                &&& final(o).value_type == v.value_type
                &&& is_field(v.data, final(o).data, final(o).data_len)
                &&& final(o).sequence == v.sequence
                &&& final(o).expected_sequence == v.expected_sequence
            },
            _ => *final(o) == *o,
        },
{
    match (req, out) {
        (Some(_), Some(out)) => match parsed {
            Some(v) => {
                let value_name: (Option<&'a [u8]>, u32) = lpf(v.value_name);
                let layer_name: (Option<&'a [u8]>, u32) = lpf(v.layer_name);
                let data: (Option<&'a [u8]>, u32) = lpf(v.data);
                out.guid = v.guid;
                out.value_name = value_name.0;
                out.value_name_len = value_name.1;
                out.layer_name = layer_name.0;
                out.layer_name_len = layer_name.1;
                out.value_type = v.value_type;
                out.data = data.0;
                out.data_len = data.1;
                out.sequence = v.sequence;
                out.expected_sequence = v.expected_sequence;
                Ok(())
            },
            None => Err(Errno::EBADMSG),
        },
        _ => Err(Errno::EINVAL),
    }
}

/// DELETE_VALUE_ENTRY: remove the entry of `value_name` in `layer_name`.
pub struct rsi_delete_value_entry<'a> {
    pub guid: Guid,
    pub value_name: Option<&'a [u8]>,
    pub value_name_len: u32,
    pub layer_name: Option<&'a [u8]>,
    pub layer_name_len: u32,
}

/// What the kernel's parser finds in a DELETE_VALUE_ENTRY payload.
pub struct DeleteValueEntryPayload<'a> {
    pub guid: Guid,
    pub value_name: &'a [u8],
    pub layer_name: &'a [u8],
}

/// Decodes a DELETE_VALUE_ENTRY request.
pub fn rsi_request_delete_value_entry<'a>(
    req: Option<&rsi_request<'a>>,
    parsed: Option<DeleteValueEntryPayload<'a>>,
    out: Option<&mut rsi_delete_value_entry<'a>>,
) -> (r: Result<(), Errno>)
    ensures
        r == decoded(req is Some, parsed is Some, out is Some),
        out matches Some(o) ==> match (r, parsed) {
            (Ok(_), Some(v)) => {
                &&& final(o).guid == v.guid
                &&& is_field(v.value_name, final(o).value_name, final(o).value_name_len)
                &&& is_field(v.layer_name, final(o).layer_name, final(o).layer_name_len)
            },
            _ => *final(o) == *o,
        },
{
    match (req, out) {
        (Some(_), Some(out)) => match parsed {
            Some(v) => {
                let value_name: (Option<&'a [u8]>, u32) = lpf(v.value_name);
                let layer_name: (Option<&'a [u8]>, u32) = lpf(v.layer_name);
                out.guid = v.guid;
                out.value_name = value_name.0;
                out.value_name_len = value_name.1;
                out.layer_name = layer_name.0;
                out.layer_name_len = layer_name.1;
                Ok(())
            },
            None => Err(Errno::EBADMSG),
        },
        _ => Err(Errno::EINVAL),
    }
}

/// SET_BLANKET_TOMBSTONE: set the blanket tombstone of `layer_name` where `set` is 1, clear it where it is 0.
pub struct rsi_set_blanket_tombstone<'a> {
    pub guid: Guid,
    pub layer_name: Option<&'a [u8]>,
    pub layer_name_len: u32,
    pub set: u8,
    pub sequence: u64,
}

/// What the kernel's parser finds in a SET_BLANKET_TOMBSTONE payload.
pub struct SetBlanketTombstonePayload<'a> {
    pub guid: Guid,
    pub layer_name: &'a [u8],
    pub set: bool,
    pub sequence: u64,
}

/// Decodes a SET_BLANKET_TOMBSTONE request.
pub fn rsi_request_set_blanket_tombstone<'a>(
    req: Option<&rsi_request<'a>>,
    parsed: Option<SetBlanketTombstonePayload<'a>>,
    out: Option<&mut rsi_set_blanket_tombstone<'a>>,
) -> (r: Result<(), Errno>)
    ensures
        r == decoded(req is Some, parsed is Some, out is Some),
        out matches Some(o) ==> match (r, parsed) {
            (Ok(_), Some(v)) => {
                &&& final(o).guid == v.guid
                &&& is_field(v.layer_name, final(o).layer_name, final(o).layer_name_len)
                &&& final(o).set == flag(v.set)
                &&& final(o).sequence == v.sequence
            },
            _ => *final(o) == *o,
        },
{
    match (req, out) {
        (Some(_), Some(out)) => match parsed {
            Some(v) => {
                let layer_name: (Option<&'a [u8]>, u32) = lpf(v.layer_name);
                out.guid = v.guid;
                out.layer_name = layer_name.0;
                out.layer_name_len = layer_name.1;
                out.set = flag_byte(v.set);
                out.sequence = v.sequence;
                Ok(())
            },
            None => Err(Errno::EBADMSG),
        },
        _ => Err(Errno::EINVAL),
    }
}

/// BEGIN_TRANSACTION: open the transaction `transaction_id` in `mode`.
pub struct rsi_begin_transaction {
    pub transaction_id: u64,
    /// `RSI_TXN_READ_WRITE` or `RSI_TXN_READ_ONLY`.
    pub mode: u32,
}

/// What a transaction may do.
#[derive(Clone, Copy, Debug, PartialEq, Eq, Structural)]
pub enum RsiTransactionMode {
    ReadWrite,
    ReadOnly,
}

impl RsiTransactionMode {
    /// The number of the mode on the wire.
    pub open spec fn number(self) -> u32 {
        match self {
            RsiTransactionMode::ReadWrite => RSI_TXN_READ_WRITE,
            RsiTransactionMode::ReadOnly => RSI_TXN_READ_ONLY,
        }
    }

    /// The number of the mode on the wire.
    pub fn code(self) -> (code: u32)
        ensures
            code == self.number(),
    {
        match self {
            RsiTransactionMode::ReadWrite => RSI_TXN_READ_WRITE,
            RsiTransactionMode::ReadOnly => RSI_TXN_READ_ONLY,
        }
    }
}

/// What the kernel's parser finds in a BEGIN_TRANSACTION payload.
pub struct BeginTransactionPayload {
    pub transaction_id: u64,
    pub mode: RsiTransactionMode,
}

/// Decodes a BEGIN_TRANSACTION request.
pub fn rsi_request_begin_transaction<'a>(
    req: Option<&rsi_request<'a>>,
    parsed: Option<BeginTransactionPayload>,
    out: Option<&mut rsi_begin_transaction>,
) -> (r: Result<(), Errno>)
    ensures
        r == decoded(req is Some, parsed is Some, out is Some),
        out matches Some(o) ==> match (r, parsed) {
            (Ok(_), Some(v)) => {
                &&& final(o).transaction_id == v.transaction_id
                &&& final(o).mode == v.mode.number()
            },
            _ => *final(o) == *o,
        },
{
    match (req, out) {
        (Some(_), Some(out)) => match parsed {
            Some(v) => {
                out.transaction_id = v.transaction_id;
                out.mode = v.mode.code();
                Ok(())
            },
            None => Err(Errno::EBADMSG),
        },
        _ => Err(Errno::EINVAL),
    }
}

/// A request that carries only the id of a transaction.
pub struct rsi_transaction {
    pub transaction_id: u64,
}

/// Decodes a COMMIT_TRANSACTION request: commit `transaction_id`.
pub fn rsi_request_commit_transaction<'a>(
    req: Option<&rsi_request<'a>>,
    parsed: Option<u64>,
    out: Option<&mut rsi_transaction>,
) -> (r: Result<(), Errno>)
    ensures
        r == decoded(req is Some, parsed is Some, out is Some),
        out matches Some(o) ==> match (r, parsed) {
            (Ok(_), Some(v)) => final(o).transaction_id == v,
            _ => *final(o) == *o,
        },
{
    match (req, out) {
        (Some(_), Some(out)) => match parsed {
            Some(v) => {
                out.transaction_id = v;
                Ok(())
            },
            None => Err(Errno::EBADMSG),
        },
        _ => Err(Errno::EINVAL),
    }
}

/// Decodes an ABORT_TRANSACTION request: roll back `transaction_id`.
pub fn rsi_request_abort_transaction<'a>(
    req: Option<&rsi_request<'a>>,
    parsed: Option<u64>,
    out: Option<&mut rsi_transaction>,
) -> (r: Result<(), Errno>)
    ensures
        r == decoded(req is Some, parsed is Some, out is Some),
        out matches Some(o) ==> match (r, parsed) {
            (Ok(_), Some(v)) => final(o).transaction_id == v,
            _ => *final(o) == *o,
        },
{
    match (req, out) {
        (Some(_), Some(out)) => match parsed {
            Some(v) => {
                out.transaction_id = v;
                Ok(())
            },
            None => Err(Errno::EBADMSG),
        },
        _ => Err(Errno::EINVAL),
    }
}

/// A request that carries only a name.
pub struct rsi_name<'a> {
    pub name: Option<&'a [u8]>,
    pub name_len: u32,
}

/// Decodes a DELETE_LAYER request: remove every entry of the layer `name`.
pub fn rsi_request_delete_layer<'a>(
    req: Option<&rsi_request<'a>>,
    parsed: Option<&'a [u8]>,
    out: Option<&mut rsi_name<'a>>,
) -> (r: Result<(), Errno>)
    ensures
        r == decoded(req is Some, parsed is Some, out is Some),
        out matches Some(o) ==> match (r, parsed) {
            (Ok(_), Some(v)) => is_field(v, final(o).name, final(o).name_len),
            _ => *final(o) == *o,
        },
{
    match (req, out) {
        (Some(_), Some(out)) => match parsed {
            Some(v) => {
                let name: (Option<&'a [u8]>, u32) = lpf(v);
                out.name = name.0;
                out.name_len = name.1;
                Ok(())
            },
            None => Err(Errno::EBADMSG),
        },
        _ => Err(Errno::EINVAL),
    }
}

/// Decodes a FLUSH request: persist the pending writes of the hive `name`.
pub fn rsi_request_flush<'a>(
    req: Option<&rsi_request<'a>>,
    parsed: Option<&'a [u8]>,
    out: Option<&mut rsi_name<'a>>,
) -> (r: Result<(), Errno>)
    ensures
        r == decoded(req is Some, parsed is Some, out is Some),
        out matches Some(o) ==> match (r, parsed) {
            (Ok(_), Some(v)) => is_field(v, final(o).name, final(o).name_len),
            _ => *final(o) == *o,
        },
{
    match (req, out) {
        (Some(_), Some(out)) => match parsed {
            Some(v) => {
                let name: (Option<&'a [u8]>, u32) = lpf(v);
                out.name = name.0;
                out.name_len = name.1;
                Ok(())
            },
            None => Err(Errno::EBADMSG),
        },
        _ => Err(Errno::EINVAL),
    }
}

} // verus!
