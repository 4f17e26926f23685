//! Responses: one builder for each kind of reply.
//!
//! Most requests are answered with a status alone, and every failure is. The requests
//! that are answered with a payload on success have a builder each, which takes the
//! result as flat arrays and returns the whole frame; one write of that frame to the
//! source descriptor sends it.
//!
//! A pointer may be NULL (`None`) only where the length or count beside it is zero.
use vstd::prelude::*;

use crate::c_array::{c_array_present, c_array_valid, c_array_view, require_array};
use crate::completeness::{
    enum_children_metadata_asks, enum_children_metadata_ok, lookup_metadata_asks,
    lookup_metadata_ok, validate_enum_children_metadata, validate_lookup_metadata,
};
use crate::entries::{
    array_accepted, array_records, array_valid, bool_ok, encode_block, encode_metadata_block,
    encode_path_entry_block, require_bool, rsi_blanket_entry, rsi_child_entry, rsi_key_metadata,
    rsi_path_entry, rsi_value_entry,
};
use crate::errno::Errno;
use crate::frame::{build_status_frame, finish_response, new_writer, response_frame, FrameWriter};
use crate::guids::{guid_vec_with_capacity, unique_nonzero, validate_unique_nonzero_guids, Guid};
use crate::records::{
    concat, DeleteLayerReply, EnumChildrenReply, LookupReply, QueryValuesReply, ReadKeyReply,
    WireRecord,
};
use crate::request::rsi_request;
use crate::vocabulary::{response_op, OpInfo, RsiAbi, StatusInfo, RSI_RESPONSE_BIT};

verus! {

/// The request is there and is the kind of request that `expected_op` numbers.
pub open spec fn asks_for(req: Option<&rsi_request>, expected_op: u32) -> bool {
    req matches Some(q) && q.op_code == expected_op as u16
}

/// `r` is the outcome of answering `req` with `payload`: the whole frame where the
/// reply keeps the rules, `EINVAL` where it does not, `EOVERFLOW` where the frame is too
/// long for its length field. The allocator may say `ENOMEM`, but only where memory is
/// `asked` for.
pub open spec fn is_reply(
    r: Result<Vec<u8>, Errno>,
    req: Option<&rsi_request>,
    accepted: bool,
    asked: bool,
    ok: u32,
    payload: Seq<u8>,
) -> bool {
    match (r, req) {
        (Ok(frame), Some(q)) => {
            &&& accepted
            &&& frame@ == response_frame(q.request_id, response_op(q.op_code), ok, payload)
            &&& frame@.len() <= u32::MAX
        },
        (Ok(_), None) => false,
        (Err(Errno::EINVAL), _) => !accepted,
        (Err(Errno::EOVERFLOW), _) => accepted && 18 + payload.len() > u32::MAX,
        (Err(e), _) => e == Errno::ENOMEM && asked,
    }
}

/// Refuses a NULL request, and one of another kind than the reply is for.
pub fn require_response_req<'r, 'a>(
    req: Option<&'r rsi_request<'a>>,
    expected_op: u32,
) -> (r: Result<&'r rsi_request<'a>, Errno>)
    ensures
        match r {
            Ok(q) => asks_for(req, expected_op) && req == Some(q),
            Err(e) => e == Errno::EINVAL && !asks_for(req, expected_op),
        },
{
    match req {
        Some(q) => {
            if q.op_code != #[verifier::truncate] (expected_op as u16) {
                return Err(Errno::EINVAL);
            }
            Ok(q)
        },
        None => Err(Errno::EINVAL),
    }
}

// ---------------------------------------------------------------------------
// Status-only replies
// ---------------------------------------------------------------------------

/// A status-only reply is in order: the status is known, and where it is success, the
/// request is one that success answers with a status alone.
pub open spec fn status_reply_ok(op: OpInfo, meaning: StatusInfo) -> bool {
    match meaning {
        StatusInfo::Unknown => false,
        StatusInfo::Success => op.status_only == Some(true),
        StatusInfo::Failure => true,
    }
}

/// Refuses an unknown status, and success for a request that is answered with a
/// payload.
pub fn validate_status_response(op: OpInfo, meaning: StatusInfo) -> (r: Result<(), Errno>)
    ensures
        r == (if status_reply_ok(op, meaning) {
            Ok::<(), Errno>(())
        } else {
            Err(Errno::EINVAL)
        }),
{
    match meaning {
        StatusInfo::Unknown => Err(Errno::EINVAL),
        StatusInfo::Success => match op.status_only {
            Some(true) => Ok(()),
            _ => Err(Errno::EINVAL),
        },
        StatusInfo::Failure => Ok(()),
    }
}

/// Builds a status-only reply. `op` is what the kernel's table says of the op-code of
/// the request, and `meaning` what it says of `status`.
pub fn rsi_respond_status(
    req: Option<&rsi_request>,
    status: u32,
    op: OpInfo,
    meaning: StatusInfo,
) -> (r: Result<[u8; 18], Errno>)
    ensures
        match (r, req) {
            (Ok(frame), Some(q)) => {
                &&& op.known && status_reply_ok(op, meaning)
                &&& frame@ == response_frame(
                    q.request_id,
                    response_op(q.op_code),
                    status,
                    Seq::empty(),
                )
            },
            (Ok(_), None) => false,
            (Err(e), _) => {
                &&& e == Errno::EINVAL
                &&& req is None || !op.known || !status_reply_ok(op, meaning)
            },
        },
{
    match req {
        Some(q) => {
            if !op.known {
                return Err(Errno::EINVAL);
            }
            if let Err(e) = validate_status_response(op, meaning) {
                return Err(e);
            }
            let resp_op: u16 = q.op_code | RSI_RESPONSE_BIT;
            Ok(build_status_frame(q.request_id, resp_op, status))
        },
        None => Err(Errno::EINVAL),
    }
}

/// What a write to the source descriptor came to.
#[derive(Clone, Copy, Debug, PartialEq, Eq, Structural)]
pub enum WriteOutcome {
    /// The whole frame went out.
    Sent,
    /// The write failed; `errno` is as the write left it.
    Failed,
    /// The write went wrong in the way this names.
    Refused(Errno),
}

/// Judges what `write` returned for a frame of `frame_len` bytes: a frame goes out in
/// one piece or not at all, so a short write is an `EIO`.
pub fn write_outcome(written: isize, frame_len: usize) -> (r: WriteOutcome)
    ensures
        r == (if written < 0 {
            WriteOutcome::Failed
        } else if written == frame_len {
            WriteOutcome::Sent
        } else {
            WriteOutcome::Refused(Errno::EIO)
        }),
{
    if written < 0 {
        WriteOutcome::Failed
    } else if written as usize == frame_len {
        WriteOutcome::Sent
    } else {
        WriteOutcome::Refused(Errno::EIO)
    }
}

// ---------------------------------------------------------------------------
// Replies with a payload
// ---------------------------------------------------------------------------

/// The reply that the arrays of a LOOKUP stand for.
pub open spec fn lookup_reply(
    entries: Option<&[rsi_path_entry]>,
    entry_count: u32,
    metadata: Option<&[rsi_key_metadata]>,
    metadata_count: u32,
) -> LookupReply {
    LookupReply {
        entries: array_records(entries, entry_count),
        metadata: array_records(metadata, metadata_count),
    }
}

/// The arrays of a LOOKUP make a reply that keeps the rules.
pub open spec fn lookup_accepted(
    entries: Option<&[rsi_path_entry]>,
    entry_count: u32,
    metadata: Option<&[rsi_key_metadata]>,
    metadata_count: u32,
) -> bool {
    &&& array_accepted(entries, entry_count)
    &&& array_accepted(metadata, metadata_count)
    &&& lookup_metadata_ok(entries, entry_count, metadata, metadata_count)
}

/// Answers a LOOKUP: the path entries of the child that was looked up, and the metadata
/// of each key they name.
pub fn rsi_respond_lookup(
    abi: &RsiAbi,
    op_known: bool,
    req: Option<&rsi_request>,
    entries: Option<&[rsi_path_entry]>,
    entry_count: u32,
    metadata: Option<&[rsi_key_metadata]>,
    metadata_count: u32,
) -> (r: Result<Vec<u8>, Errno>)
    requires
        array_valid(entries, entry_count),
        array_valid(metadata, metadata_count),
    ensures
        is_reply(
            r,
            req,
            asks_for(req, abi.lookup) && op_known && lookup_accepted(
                entries,
                entry_count,
                metadata,
                metadata_count,
            ),
            asks_for(req, abi.lookup) && (lookup_metadata_asks(
                entries,
                entry_count,
                metadata,
                metadata_count,
            ) || (op_known && lookup_accepted(entries, entry_count, metadata, metadata_count))),
            abi.ok,
            lookup_reply(entries, entry_count, metadata, metadata_count).bytes(),
        ),
{
    let q: &rsi_request = match require_response_req(req, abi.lookup) {
        Ok(q) => q,
        Err(e) => {
            return Err(e);
        },
    };
    if let Err(e) = validate_lookup_metadata(entries, entry_count, metadata, metadata_count) {
        return Err(e);
    }
    let mut w: FrameWriter = new_writer();
    let ghost blank = w.buf@;
    if let Err(e) = encode_path_entry_block(&mut w, entries, entry_count) {
        return Err(e);
    }
    if let Err(e) = encode_metadata_block(&mut w, metadata, metadata_count) {
        return Err(e);
    }
    let ghost payload = lookup_reply(entries, entry_count, metadata, metadata_count).bytes();
    assert(!w.oom ==> w.buf@ =~= blank + payload);
    assert(!w.oom ==> w.buf@.skip(18) =~= payload);
    finish_response(q, w, op_known, abi.ok)
}

/// The reply that the arrays of an ENUM_CHILDREN stand for.
pub open spec fn enum_children_reply(
    children: Option<&[rsi_child_entry]>,
    child_count: u32,
    metadata: Option<&[rsi_key_metadata]>,
    metadata_count: u32,
) -> EnumChildrenReply {
    EnumChildrenReply {
        children: array_records(children, child_count),
        metadata: array_records(metadata, metadata_count),
    }
}

/// The arrays of an ENUM_CHILDREN make a reply that keeps the rules.
pub open spec fn enum_children_accepted(
    children: Option<&[rsi_child_entry]>,
    child_count: u32,
    metadata: Option<&[rsi_key_metadata]>,
    metadata_count: u32,
) -> bool {
    &&& array_accepted(children, child_count)
    &&& array_accepted(metadata, metadata_count)
    &&& enum_children_metadata_ok(children, child_count, metadata, metadata_count)
}

/// Answers an ENUM_CHILDREN: each child with its path entries, and the metadata of each
/// key they name.
pub fn rsi_respond_enum_children(
    abi: &RsiAbi,
    op_known: bool,
    req: Option<&rsi_request>,
    children: Option<&[rsi_child_entry]>,
    child_count: u32,
    metadata: Option<&[rsi_key_metadata]>,
    metadata_count: u32,
) -> (r: Result<Vec<u8>, Errno>)
    requires
        array_valid(children, child_count),
        array_valid(metadata, metadata_count),
    ensures
        is_reply(
            r,
            req,
            asks_for(req, abi.enum_children) && op_known && enum_children_accepted(
                children,
                child_count,
                metadata,
                metadata_count,
            ),
            asks_for(req, abi.enum_children) && (enum_children_metadata_asks(
                children,
                child_count,
                metadata,
                metadata_count,
            ) || (op_known && enum_children_accepted(
                children,
                child_count,
                metadata,
                metadata_count,
            ))),
            abi.ok,
            enum_children_reply(children, child_count, metadata, metadata_count).bytes(),
        ),
{
    let q: &rsi_request = match require_response_req(req, abi.enum_children) {
        Ok(q) => q,
        Err(e) => {
            return Err(e);
        },
    };
    if let Err(e) = validate_enum_children_metadata(
        children,
        child_count,
        metadata,
        metadata_count,
    ) {
        return Err(e);
    }
    let mut w: FrameWriter = new_writer();
    let ghost blank = w.buf@;
    if let Err(e) = encode_block(&mut w, children, child_count) {
        return Err(e);
    }
    if let Err(e) = encode_metadata_block(&mut w, metadata, metadata_count) {
        return Err(e);
    }
    let ghost payload = enum_children_reply(
        children,
        child_count,
        metadata,
        metadata_count,
    ).bytes();
    assert(!w.oom ==> w.buf@ =~= blank + payload);
    assert(!w.oom ==> w.buf@.skip(18) =~= payload);
    finish_response(q, w, op_known, abi.ok)
}

/// The fields of a READ_KEY make a reply that keeps the rules.
pub open spec fn read_key_accepted(
    name: Option<&[u8]>,
    name_len: u32,
    parent_guid: Option<&Guid>,
    sd: Option<&[u8]>,
    sd_len: u32,
    volatile_key: u8,
    symlink: u8,
) -> bool {
    &&& parent_guid is Some
    &&& c_array_present(name, name_len)
    &&& c_array_present(sd, sd_len)
    &&& bool_ok(volatile_key)
    &&& bool_ok(symlink)
}

/// The reply that the fields of a READ_KEY stand for.
pub open spec fn read_key_reply(
    name: Option<&[u8]>,
    name_len: u32,
    parent_guid: Guid,
    sd: Option<&[u8]>,
    sd_len: u32,
    volatile_key: u8,
    symlink: u8,
    last_write_time: u64,
) -> ReadKeyReply {
    ReadKeyReply {
        name: c_array_view(name, name_len),
        parent_guid,
        sd: c_array_view(sd, sd_len),
        volatile_key,
        symlink,
        last_write_time,
    }
}

/// Answers a READ_KEY: the metadata of the key. The GUID of the parent has to be there
/// even where the other fields are empty.
pub fn rsi_respond_read_key(
    abi: &RsiAbi,
    op_known: bool,
    req: Option<&rsi_request>,
    name: Option<&[u8]>,
    name_len: u32,
    parent_guid: Option<&Guid>,
    sd: Option<&[u8]>,
    sd_len: u32,
    volatile_key: u8,
    symlink: u8,
    last_write_time: u64,
) -> (r: Result<Vec<u8>, Errno>)
    requires
        c_array_valid(name, name_len),
        c_array_valid(sd, sd_len),
    ensures
        is_reply(
            r,
            req,
            asks_for(req, abi.read_key) && op_known && read_key_accepted(
                name,
                name_len,
                parent_guid,
                sd,
                sd_len,
                volatile_key,
                symlink,
            ),
            asks_for(req, abi.read_key) && op_known && read_key_accepted(
                name,
                name_len,
                parent_guid,
                sd,
                sd_len,
                volatile_key,
                symlink,
            ),
            abi.ok,
            read_key_reply(
                name,
                name_len,
                *parent_guid->0,
                sd,
                sd_len,
                volatile_key,
                symlink,
                last_write_time,
            ).bytes(),
        ),
{
    let q: &rsi_request = match require_response_req(req, abi.read_key) {
        Ok(q) => q,
        Err(e) => {
            return Err(e);
        },
    };
    let parent: &Guid = match parent_guid {
        Some(parent) => parent,
        None => {
            return Err(Errno::EINVAL);
        },
    };
    let mut w: FrameWriter = new_writer();
    let ghost blank = w.buf@;
    if let Err(e) = w.lpf(name, name_len) {
        return Err(e);
    }
    w.guid(parent);
    if let Err(e) = w.lpf(sd, sd_len) {
        return Err(e);
    }
    if let Err(e) = require_bool(volatile_key) {
        return Err(e);
    }
    if let Err(e) = require_bool(symlink) {
        return Err(e);
    }
    w.u8(volatile_key);
    w.u8(symlink);
    w.u64(last_write_time);
    let ghost payload = read_key_reply(
        name,
        name_len,
        *parent,
        sd,
        sd_len,
        volatile_key,
        symlink,
        last_write_time,
    ).bytes();
    assert(!w.oom ==> w.buf@ =~= blank + payload);
    assert(!w.oom ==> w.buf@.skip(18) =~= payload);
    finish_response(q, w, op_known, abi.ok)
}

/// The reply that the arrays of a QUERY_VALUES stand for.
pub open spec fn query_values_reply(
    entries: Option<&[rsi_value_entry]>,
    entry_count: u32,
    blankets: Option<&[rsi_blanket_entry]>,
    blanket_count: u32,
) -> QueryValuesReply {
    QueryValuesReply {
        entries: array_records(entries, entry_count),
        blankets: array_records(blankets, blanket_count),
    }
}

/// Answers a QUERY_VALUES: the value entries and the blanket tombstones.
pub fn rsi_respond_query_values(
    abi: &RsiAbi,
    op_known: bool,
    req: Option<&rsi_request>,
    entries: Option<&[rsi_value_entry]>,
    entry_count: u32,
    blankets: Option<&[rsi_blanket_entry]>,
    blanket_count: u32,
) -> (r: Result<Vec<u8>, Errno>)
    requires
        array_valid(entries, entry_count),
        array_valid(blankets, blanket_count),
    ensures
        is_reply(
            r,
            req,
            asks_for(req, abi.query_values) && op_known && array_accepted(
                entries,
                entry_count,
            ) && array_accepted(blankets, blanket_count),
            asks_for(req, abi.query_values) && op_known && array_accepted(
                entries,
                entry_count,
            ) && array_accepted(blankets, blanket_count),
            abi.ok,
            query_values_reply(entries, entry_count, blankets, blanket_count).bytes(),
        ),
{
    let q: &rsi_request = match require_response_req(req, abi.query_values) {
        Ok(q) => q,
        Err(e) => {
            return Err(e);
        },
    };
    if let Err(e) = require_array(entries, entry_count) {
        return Err(e);
    }
    if let Err(e) = require_array(blankets, blanket_count) {
        return Err(e);
    }
    let mut w: FrameWriter = new_writer();
    let ghost blank = w.buf@;
    if let Err(e) = encode_block(&mut w, entries, entry_count) {
        return Err(e);
    }
    if let Err(e) = encode_block(&mut w, blankets, blanket_count) {
        return Err(e);
    }
    let ghost payload = query_values_reply(entries, entry_count, blankets, blanket_count).bytes();
    assert(!w.oom ==> w.buf@ =~= blank + payload);
    assert(!w.oom ==> w.buf@.skip(18) =~= payload);
    finish_response(q, w, op_known, abi.ok)
}

// ---------------------------------------------------------------------------
// Orphaned keys
// ---------------------------------------------------------------------------

/// The GUID with these sixteen bytes.
pub open spec fn guid_of(bytes: Seq<u8>) -> Guid {
    choose|guid: Guid| #[trigger] guid@ == bytes
}

/// A run of bytes, sixteen to a GUID.
pub open spec fn guid_chunks(bytes: Seq<u8>) -> Seq<Guid> {
    Seq::new(
        bytes.len() / 16,
        |i: int| guid_of(bytes.subrange(16 * i, 16 * i + 16)),
    )
}

/// Where the array can be addressed at all, a pointer that is not NULL has sixteen bytes
/// for each of its GUIDs.
pub open spec fn orphans_valid(orphaned_guids: Option<&[u8]>, orphaned_count: u32) -> bool {
    orphaned_guids matches Some(s) ==> 16 * orphaned_count <= usize::MAX ==> 16 * orphaned_count
        <= s@.len()
}

/// The bytes of the array.
pub open spec fn orphans_view(orphaned_guids: Option<&[u8]>, orphaned_count: u32) -> Seq<u8> {
    match orphaned_guids {
        Some(s) => s@.take(16 * orphaned_count),
        None => Seq::empty(),
    }
}

/// The array may go into a reply: it is there, and no GUID in it is nil or repeated.
pub open spec fn orphans_accepted(orphaned_guids: Option<&[u8]>, orphaned_count: u32) -> bool {
    orphaned_count != 0 ==> orphaned_guids is Some && unique_nonzero(
        guid_chunks(orphans_view(orphaned_guids, orphaned_count)),
    )
}

/// Sixteen bytes are those of the GUID with these bytes.
pub proof fn lemma_guid_of(bytes: Seq<u8>)
    requires
        bytes.len() == 16,
    ensures
        guid_of(bytes)@ == bytes,
{
    let guid: Guid = [
        bytes[0],
        bytes[1],
        bytes[2],
        bytes[3],
        bytes[4],
        bytes[5],
        bytes[6],
        bytes[7],
        bytes[8],
        bytes[9],
        bytes[10],
        bytes[11],
        bytes[12],
        bytes[13],
        bytes[14],
        bytes[15],
    ];
    assert(guid@ =~= bytes);
}

/// The GUIDs in a row are the bytes they were cut from.
pub proof fn lemma_chunks_concat(bytes: Seq<u8>)
    requires
        bytes.len() % 16 == 0,
    ensures
        concat(guid_chunks(bytes)) == bytes,
    decreases bytes.len(),
{
    let n = bytes.len() / 16;
    if n == 0 {
        assert(bytes =~= Seq::<u8>::empty());
        assert(concat(guid_chunks(bytes)) =~= bytes);
    } else {
        let head = bytes.take(bytes.len() - 16);
        let tail = bytes.subrange(bytes.len() - 16, bytes.len() as int);
        lemma_chunks_concat(head);
        lemma_guid_of(tail);
        assert forall|i: int| 0 <= i < n - 1 implies #[trigger] guid_chunks(bytes)[i]
            == guid_chunks(head)[i] by {
            assert(bytes.subrange(16 * i, 16 * i + 16) =~= head.subrange(16 * i, 16 * i + 16));
        }
        assert(guid_chunks(bytes).drop_last() =~= guid_chunks(head));
        assert(bytes =~= head + tail);
    }
}

/// The sixteen bytes from `at` on.
fn guid_at(bytes: &[u8], at: usize) -> (guid: Guid)
    requires
        at + 16 <= bytes@.len(),
    ensures
        guid@ == bytes@.subrange(at as int, at + 16),
{
    let guid: Guid = [
        bytes[at],
        bytes[at + 1],
        bytes[at + 2],
        bytes[at + 3],
        bytes[at + 4],
        bytes[at + 5],
        bytes[at + 6],
        bytes[at + 7],
        bytes[at + 8],
        bytes[at + 9],
        bytes[at + 10],
        bytes[at + 11],
        bytes[at + 12],
        bytes[at + 13],
        bytes[at + 14],
        bytes[at + 15],
    ];
    assert(guid@ =~= bytes@.subrange(at as int, at + 16));
    guid
}

/// Hands the bytes of the orphaned GUIDs on; refuses nil and repeated ones. The GUIDs are
/// gathered in `room`: an empty list, or why there is none.
pub fn orphans_in<'a>(bytes: &'a [u8], room: Result<Vec<Guid>, Errno>) -> (r: Result<
    &'a [u8],
    Errno,
>)
    requires
        bytes@.len() % 16 == 0,
        room matches Ok(v) ==> v@.len() == 0,
    ensures
        match room {
            Err(e) => r == Err::<&'a [u8], Errno>(e),
            Ok(_) => r == (if unique_nonzero(guid_chunks(bytes@)) {
                Ok::<&'a [u8], Errno>(bytes)
            } else {
                Err(Errno::EINVAL)
            }),
        },
{
    let ghost chunks = guid_chunks(bytes@);
    let mut guids: Vec<Guid> = match room {
        Ok(guids) => guids,
        Err(e) => {
            return Err(e);
        },
    };
    let byte_len: usize = bytes.len();
    let mut at: usize = 0;
    assert(guids@ =~= chunks.take(0));
    while at < byte_len
        invariant
            at <= byte_len,
            at % 16 == 0,
            byte_len % 16 == 0,
            byte_len == bytes@.len(),
            chunks == guid_chunks(bytes@),
            guids@ == chunks.take(at as int / 16),
        decreases byte_len - at,
    {
        let guid: Guid = guid_at(bytes, at);
        proof {
            let i = at as int / 16;
            lemma_guid_of(guid@);
            assert(guid_of(guid@) =~= guid);
            assert(16 * i == at);
            assert(chunks[i] == guid);
        }
        guids.push(guid);
        at += 16;
        assert(guids@ =~= chunks.take(at as int / 16));
    }
    assert(guids@ =~= chunks);
    match validate_unique_nonzero_guids(guids.as_mut_slice()) {
        Ok(_) => Ok(bytes),
        Err(e) => Err(e),
    }
}

/// The bytes of the orphaned GUIDs; refuses nil and repeated ones.
pub fn orphaned_guid_bytes<'a>(orphaned_guids: Option<&'a [u8]>, orphaned_count: u32) -> (r: Result<
    &'a [u8],
    Errno,
>)
    requires
        orphans_valid(orphaned_guids, orphaned_count),
    ensures
        match r {
            Ok(bytes) => {
                &&& 16 * orphaned_count <= usize::MAX
                &&& orphans_accepted(orphaned_guids, orphaned_count)
                &&& bytes@ == orphans_view(orphaned_guids, orphaned_count)
                &&& bytes@.len() == 16 * orphaned_count
            },
            Err(Errno::EOVERFLOW) => 16 * orphaned_count > usize::MAX,
            Err(Errno::EINVAL) => 16 * orphaned_count <= usize::MAX && !orphans_accepted(
                orphaned_guids,
                orphaned_count,
            ),
            Err(e) => {
                &&& e == Errno::ENOMEM
                &&& 16 * orphaned_count <= usize::MAX
                &&& orphaned_count != 0 && orphaned_guids is Some
            },
        },
{
    let byte_len: usize = match (orphaned_count as usize).checked_mul(16) {
        Some(byte_len) => byte_len,
        None => {
            return Err(Errno::EOVERFLOW);
        },
    };
    if byte_len == 0 {
        let none: &'a [u8] = &[];
        assert(none@ =~= orphans_view(orphaned_guids, orphaned_count));
        return Ok(none);
    }
    let all: &'a [u8] = match orphaned_guids {
        Some(all) => all,
        None => {
            return Err(Errno::EINVAL);
        },
    };
    let bytes: &'a [u8] = vstd::slice::slice_subrange(all, 0, byte_len);
    assert(bytes@ =~= orphans_view(orphaned_guids, orphaned_count));
    orphans_in(bytes, guid_vec_with_capacity(orphaned_count as usize))
}

/// Answers a DELETE_LAYER: the keys that the deletion left orphaned.
pub fn rsi_respond_delete_layer(
    abi: &RsiAbi,
    op_known: bool,
    req: Option<&rsi_request>,
    orphaned_guids: Option<&[u8]>,
    orphaned_count: u32,
) -> (r: Result<Vec<u8>, Errno>)
    requires
        orphans_valid(orphaned_guids, orphaned_count),
    ensures
        16 * orphaned_count <= usize::MAX || !asks_for(req, abi.delete_layer) ==> is_reply(
            r,
            req,
            asks_for(req, abi.delete_layer) && op_known && orphans_accepted(
                orphaned_guids,
                orphaned_count,
            ),
            asks_for(req, abi.delete_layer) && (if orphaned_count == 0 {
                op_known
            } else {
                orphaned_guids is Some
            }),
            abi.ok,
            (DeleteLayerReply {
                orphaned: guid_chunks(orphans_view(orphaned_guids, orphaned_count)),
            }).bytes(),
        ),
        16 * orphaned_count > usize::MAX && asks_for(req, abi.delete_layer) ==> r == Err::<
            Vec<u8>,
            Errno,
        >(Errno::EOVERFLOW),
{
    let q: &rsi_request = match require_response_req(req, abi.delete_layer) {
        Ok(q) => q,
        Err(e) => {
            return Err(e);
        },
    };
    let orphaned_bytes: &[u8] = match orphaned_guid_bytes(orphaned_guids, orphaned_count) {
        Ok(bytes) => bytes,
        Err(e) => {
            return Err(e);
        },
    };
    let mut w: FrameWriter = new_writer();
    let ghost blank = w.buf@;
    w.u32(orphaned_count);
    w.raw(orphaned_bytes);
    let ghost payload = (DeleteLayerReply {
        orphaned: guid_chunks(orphans_view(orphaned_guids, orphaned_count)),
    }).bytes();
    proof {
        lemma_chunks_concat(orphaned_bytes@);
        assert(!w.oom ==> w.buf@ =~= blank + payload);
        assert(!w.oom ==> w.buf@.skip(18) =~= payload);
    }
    finish_response(q, w, op_known, abi.ok)
}

} // verus!
