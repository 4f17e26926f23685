//! Where each argument of a reply stands in its frame, byte by byte.
//!
//! The laws of this module speak of the structures, pointers and counts that the caller
//! hands over, and of the bytes of the frame that comes back, and of nothing between.
use vstd::prelude::*;

use crate::c_array::{c_array_present, c_array_valid, c_array_view};
use crate::entries::{
    array_accepted, array_records, array_valid, rsi_blanket_entry, rsi_child_entry,
    rsi_key_metadata, rsi_path_entry, rsi_value_entry, CRecord,
};
use crate::frame::{response_frame, response_header};
use crate::guids::Guid;
use crate::little_endian::{le_bytes, lemma_le_bytes_len};
use crate::records::{block_bytes, concat, lemma_concat_step, lpf_bytes, WireRecord};
use crate::request::rsi_request;
use crate::vocabulary::response_op;

verus! {

// ---------------------------------------------------------------------------
// What stands at a place
// ---------------------------------------------------------------------------

/// The two bytes from `p` on are `x`, the low byte first.
pub open spec fn u16_at(b: Seq<u8>, p: int, x: int) -> bool {
    &&& 0 <= p <= b.len() - 2
    &&& b[p] + 0x100 * b[p + 1] == x
}

/// The four bytes from `p` on are `x`, the low byte first.
pub open spec fn u32_at(b: Seq<u8>, p: int, x: int) -> bool {
    &&& 0 <= p <= b.len() - 4
    &&& b[p] + 0x100 * b[p + 1] + 0x1_0000 * b[p + 2] + 0x100_0000 * b[p + 3] == x
}

/// The eight bytes from `p` on are `x`, the low byte first.
pub open spec fn u64_at(b: Seq<u8>, p: int, x: int) -> bool {
    &&& 0 <= p <= b.len() - 8
    &&& b[p] + 0x100 * b[p + 1] + 0x1_0000 * b[p + 2] + 0x100_0000 * b[p + 3] + 0x1_0000_0000 * b[p
        + 4] + 0x100_0000_0000 * b[p + 5] + 0x1_0000_0000_0000 * b[p + 6] + 0x100_0000_0000_0000
        * b[p + 7] == x
}

/// The sixteen bytes from `p` on are those of `guid`.
pub open spec fn guid_at(b: Seq<u8>, p: int, guid: Guid) -> bool {
    &&& 0 <= p <= b.len() - 16
    &&& forall|k: int| 0 <= k < 16 ==> b[p + k] == #[trigger] guid@[k]
}

/// From `p` on there are `len` as four bytes, and the `len` bytes that `ptr` points to.
pub open spec fn field_at(b: Seq<u8>, p: int, ptr: Option<&[u8]>, len: u32) -> bool {
    &&& u32_at(b, p, len as int)
    &&& p + 4 + len <= b.len()
    &&& len > 0 ==> ptr is Some
    &&& forall|k: int| 0 <= k < len ==> b[p + 4 + k] == #[trigger] ptr->0@[k]
}

/// The header and the status of the answer to `req`: the length of the whole, the id of
/// the request, its op-code with the top bit set, and the status.
pub open spec fn head_at(b: Seq<u8>, req: Option<&rsi_request>, status: u32) -> bool {
    &&& req is Some
    &&& u32_at(b, 0, b.len() as int)
    &&& u64_at(b, 4, req->0.request_id as int)
    &&& u16_at(b, 12, (req->0.op_code | 0x8000u16) as int)
    &&& u32_at(b, 14, status as int)
}

// ---------------------------------------------------------------------------
// How much room runs of structures take up
// ---------------------------------------------------------------------------

/// The room that the first `n` path entries take up.
pub open spec fn path_room(s: Seq<rsi_path_entry>, n: int) -> int
    decreases n,
{
    if n <= 0 {
        0
    } else {
        path_room(s, n - 1) + 4 + s[n - 1].layer_len + 1 + 16 + 8
    }
}

/// The room that the first `n` metadata records take up.
pub open spec fn metadata_room(s: Seq<rsi_key_metadata>, n: int) -> int
    decreases n,
{
    if n <= 0 {
        0
    } else {
        metadata_room(s, n - 1) + 16 + 4 + s[n - 1].sd_len + 1 + 1 + 8
    }
}

/// The room that the first `n` children take up.
pub open spec fn child_room(s: Seq<rsi_child_entry>, n: int) -> int
    decreases n,
{
    if n <= 0 {
        0
    } else {
        child_room(s, n - 1) + 4 + s[n - 1].child_name_len + 4 + path_room(
            s[n - 1].entries->0@,
            s[n - 1].entry_count as int,
        )
    }
}

/// The room that the first `n` value entries take up.
pub open spec fn value_room(s: Seq<rsi_value_entry>, n: int) -> int
    decreases n,
{
    if n <= 0 {
        0
    } else {
        value_room(s, n - 1) + 4 + s[n - 1].value_name_len + 4 + s[n - 1].layer_name_len + 4 + 4
            + s[n - 1].data_len + 8
    }
}

/// The room that the first `n` blanket tombstones take up.
pub open spec fn blanket_room(s: Seq<rsi_blanket_entry>, n: int) -> int
    decreases n,
{
    if n <= 0 {
        0
    } else {
        blanket_room(s, n - 1) + 4 + s[n - 1].layer_name_len + 8
    }
}

// ---------------------------------------------------------------------------
// From runs of bytes to places
// ---------------------------------------------------------------------------

/// The bytes `s` stand in `b` from `p` on.
pub open spec fn run_at(b: Seq<u8>, p: int, s: Seq<u8>) -> bool {
    &&& 0 <= p <= b.len() - s.len()
    &&& b.subrange(p, p + s.len()) == s
}

pub proof fn lemma_split(b: Seq<u8>, p: int, s: Seq<u8>, t: Seq<u8>)
    requires
        run_at(b, p, s + t),
    ensures
        run_at(b, p, s),
        run_at(b, p + s.len(), t),
{
    let both = b.subrange(p, p + (s + t).len());
    assert(b.subrange(p, p + s.len()) =~= both.subrange(0, s.len() as int));
    assert((s + t).subrange(0, s.len() as int) =~= s);
    assert(b.subrange(p + s.len(), p + s.len() + t.len()) =~= both.subrange(
        s.len() as int,
        (s + t).len() as int,
    ));
    assert((s + t).subrange(s.len() as int, (s + t).len() as int) =~= t);
}

pub proof fn lemma_u16(b: Seq<u8>, p: int, x: u16)
    requires
        run_at(b, p, le_bytes(x as nat, 2)),
    ensures
        u16_at(b, p, x as int),
{
    let s = le_bytes(x as nat, 2);
    let r = b.subrange(p, p + 2);
    lemma_le_bytes_len(x as nat, 2);
    reveal_with_fuel(le_bytes, 3);
    assert(b[p] == r[0] && b[p + 1] == r[1]);
}

pub proof fn lemma_u32(b: Seq<u8>, p: int, x: nat)
    requires
        run_at(b, p, le_bytes(x, 4)),
        x <= u32::MAX,
    ensures
        u32_at(b, p, x as int),
{
    let r = b.subrange(p, p + 4);
    lemma_le_bytes_len(x, 4);
    reveal_with_fuel(le_bytes, 5);
    assert(b[p] == r[0] && b[p + 1] == r[1] && b[p + 2] == r[2] && b[p + 3] == r[3]);
}

pub proof fn lemma_u64(b: Seq<u8>, p: int, x: u64)
    requires
        run_at(b, p, le_bytes(x as nat, 8)),
    ensures
        u64_at(b, p, x as int),
{
    let r = b.subrange(p, p + 8);
    lemma_le_bytes_len(x as nat, 8);
    reveal_with_fuel(le_bytes, 9);
    assert(b[p] == r[0] && b[p + 1] == r[1] && b[p + 2] == r[2] && b[p + 3] == r[3]);
    assert(b[p + 4] == r[4] && b[p + 5] == r[5] && b[p + 6] == r[6] && b[p + 7] == r[7]);
}

pub proof fn lemma_byte(b: Seq<u8>, p: int, x: u8)
    requires
        run_at(b, p, seq![x]),
    ensures
        0 <= p < b.len(),
        b[p] == x,
{
    assert(b.subrange(p, p + 1)[0] == b[p]);
}

pub proof fn lemma_guid(b: Seq<u8>, p: int, guid: Guid)
    requires
        run_at(b, p, guid@),
    ensures
        guid_at(b, p, guid),
{
    let r = b.subrange(p, p + 16);
    assert forall|k: int| 0 <= k < 16 implies b[p + k] == #[trigger] guid@[k] by {
        assert(r[k] == b[p + k]);
    }
}

pub proof fn lemma_field(b: Seq<u8>, p: int, ptr: Option<&[u8]>, len: u32)
    requires
        run_at(b, p, lpf_bytes(c_array_view(ptr, len))),
        c_array_valid(ptr, len),
        c_array_present(ptr, len),
    ensures
        field_at(b, p, ptr, len),
        lpf_bytes(c_array_view(ptr, len)).len() == 4 + len,
{
    let field = c_array_view(ptr, len);
    lemma_le_bytes_len(field.len(), 4);
    assert(field.len() == len);
    lemma_split(b, p, le_bytes(field.len(), 4), field);
    lemma_u32(b, p, field.len());
    let r = b.subrange(p + 4, p + 4 + len);
    assert forall|k: int| 0 <= k < len implies b[p + 4 + k] == #[trigger] ptr->0@[k] by {
        assert(r[k] == field[k]);
        assert(r[k] == b[p + 4 + k]);
    }
}

pub proof fn lemma_field_len(ptr: Option<&[u8]>, len: u32)
    requires
        c_array_valid(ptr, len),
        c_array_present(ptr, len),
    ensures
        lpf_bytes(c_array_view(ptr, len)).len() == 4 + len,
{
    lemma_le_bytes_len(c_array_view(ptr, len).len(), 4);
}

/// A record of a run stands behind those before it.
pub proof fn lemma_record_at<T: WireRecord>(b: Seq<u8>, p: int, records: Seq<T>, i: int)
    requires
        run_at(b, p, concat(records)),
        0 <= i < records.len(),
    ensures
        run_at(b, p + concat(records.take(i)).len(), records[i].bytes()),
    decreases records.len(),
{
    let front = records.drop_last();
    lemma_split(b, p, concat(front), records.last().bytes());
    if i == records.len() - 1 {
        assert(records.take(i) =~= front);
    } else {
        lemma_record_at(b, p, front, i);
        assert(front.take(i) =~= records.take(i));
    }
}

/// The header, the status and the payload of a frame.
pub proof fn lemma_head(b: Seq<u8>, q: &rsi_request, status: u32, payload: Seq<u8>)
    requires
        b == response_frame(q.request_id, response_op(q.op_code), status, payload),
        b.len() <= u32::MAX,
    ensures
        head_at(b, Some(q), status),
        run_at(b, 18, payload),
        b.len() == 18 + payload.len(),
{
    broadcast use lemma_le_bytes_len;

    let total = (18 + payload.len()) as nat;
    let op = response_op(q.op_code);
    let id = le_bytes(q.request_id as nat, 8);
    let head = response_header(total, q.request_id, op);
    assert(b.subrange(0, b.len() as int) =~= b);
    lemma_split(b, 0, head + le_bytes(status as nat, 4), payload);
    lemma_split(b, 0, head, le_bytes(status as nat, 4));
    lemma_split(b, 0, le_bytes(total, 4) + id, le_bytes(op as nat, 2));
    lemma_split(b, 0, le_bytes(total, 4), id);
    lemma_u32(b, 0, total);
    lemma_u64(b, 4, q.request_id);
    lemma_u16(b, 12, op);
    lemma_u32(b, 14, status as nat);
}

// ---------------------------------------------------------------------------
// From records to places
// ---------------------------------------------------------------------------

proof fn lemma_path_at(b: Seq<u8>, p: int, e: rsi_path_entry)
    requires
        run_at(b, p, e.record().bytes()),
        e.valid(),
        e.accepted(),
    ensures
        field_at(b, p, e.layer, e.layer_len),
        b[p + e.layer_len + 4] == e.target_type,
        guid_at(b, p + e.layer_len + 5, e.target_guid),
        u64_at(b, p + e.layer_len + 21, e.sequence as int),
{
    broadcast use lemma_le_bytes_len;

    lemma_field_len(e.layer, e.layer_len);
    lemma_split(b, p, lpf_bytes(c_array_view(e.layer,
        e.layer_len)) + seq![e.target_type] + e.target_guid@, le_bytes(e.sequence as nat, 8));
    lemma_split(b, p, lpf_bytes(c_array_view(e.layer, e.layer_len)) + seq![e.target_type],
        e.target_guid@);
    lemma_split(b, p, lpf_bytes(c_array_view(e.layer, e.layer_len)), seq![e.target_type]);
    lemma_field(b, p, e.layer, e.layer_len);
    lemma_byte(b, p + e.layer_len + 4, e.target_type);
    lemma_guid(b, p + e.layer_len + 5, e.target_guid);
    lemma_u64(b, p + e.layer_len + 21, e.sequence);
}

proof fn lemma_path_len(e: rsi_path_entry)
    requires
        e.valid(),
        e.accepted(),
    ensures
        e.record().bytes().len() == 29 + e.layer_len,
{
    broadcast use lemma_le_bytes_len;

    lemma_field_len(e.layer, e.layer_len);
}

proof fn lemma_metadata_at(b: Seq<u8>, p: int, e: rsi_key_metadata)
    requires
        run_at(b, p, e.record().bytes()),
        e.valid(),
        e.accepted(),
    ensures
        guid_at(b, p, e.guid),
        field_at(b, p + 16, e.sd, e.sd_len),
        b[p + e.sd_len + 20] == e.volatile_key,
        b[p + e.sd_len + 21] == e.symlink,
        u64_at(b, p + e.sd_len + 22, e.last_write_time as int),
{
    broadcast use lemma_le_bytes_len;

    lemma_field_len(e.sd, e.sd_len);
    lemma_split(b, p, e.guid@ + lpf_bytes(c_array_view(e.sd,
        e.sd_len)) + seq![e.volatile_key] + seq![e.symlink], le_bytes(e.last_write_time as nat, 8));
    lemma_split(b, p, e.guid@ + lpf_bytes(c_array_view(e.sd, e.sd_len)) + seq![e.volatile_key],
        seq![e.symlink]);
    lemma_split(b, p, e.guid@ + lpf_bytes(c_array_view(e.sd, e.sd_len)), seq![e.volatile_key]);
    lemma_split(b, p, e.guid@, lpf_bytes(c_array_view(e.sd, e.sd_len)));
    lemma_guid(b, p, e.guid);
    lemma_field(b, p + 16, e.sd, e.sd_len);
    lemma_byte(b, p + e.sd_len + 20, e.volatile_key);
    lemma_byte(b, p + e.sd_len + 21, e.symlink);
    lemma_u64(b, p + e.sd_len + 22, e.last_write_time);
}

proof fn lemma_metadata_len(e: rsi_key_metadata)
    requires
        e.valid(),
        e.accepted(),
    ensures
        e.record().bytes().len() == 30 + e.sd_len,
{
    broadcast use lemma_le_bytes_len;

    lemma_field_len(e.sd, e.sd_len);
}

proof fn lemma_value_at(b: Seq<u8>, p: int, e: rsi_value_entry)
    requires
        run_at(b, p, e.record().bytes()),
        e.valid(),
        e.accepted(),
    ensures
        field_at(b, p, e.value_name, e.value_name_len),
        field_at(b, p + e.value_name_len + 4, e.layer_name, e.layer_name_len),
        u32_at(b, p + e.value_name_len + e.layer_name_len + 8, e.value_type as int),
        field_at(b, p + e.value_name_len + e.layer_name_len + 12, e.data, e.data_len),
        u64_at(b, p + e.value_name_len + e.layer_name_len + e.data_len + 16, e.sequence as int),
{
    broadcast use lemma_le_bytes_len;

    lemma_field_len(e.value_name, e.value_name_len);
    lemma_field_len(e.layer_name, e.layer_name_len);
    lemma_field_len(e.data, e.data_len);
    lemma_split(b, p, lpf_bytes(c_array_view(e.value_name,
        e.value_name_len)) + lpf_bytes(c_array_view(e.layer_name,
            e.layer_name_len)) + le_bytes(e.value_type as nat, 4) + lpf_bytes(c_array_view(e.data,
                e.data_len)), le_bytes(e.sequence as nat, 8));
    lemma_split(b, p, lpf_bytes(c_array_view(e.value_name,
        e.value_name_len)) + lpf_bytes(c_array_view(e.layer_name,
            e.layer_name_len)) + le_bytes(e.value_type as nat, 4), lpf_bytes(c_array_view(e.data,
                e.data_len)));
    lemma_split(b, p, lpf_bytes(c_array_view(e.value_name,
        e.value_name_len)) + lpf_bytes(c_array_view(e.layer_name, e.layer_name_len)),
            le_bytes(e.value_type as nat, 4));
    lemma_split(b, p, lpf_bytes(c_array_view(e.value_name, e.value_name_len)),
        lpf_bytes(c_array_view(e.layer_name, e.layer_name_len)));
    lemma_field(b, p, e.value_name, e.value_name_len);
    lemma_field(b, p + e.value_name_len + 4, e.layer_name, e.layer_name_len);
    lemma_u32(b, p + e.value_name_len + e.layer_name_len + 8, e.value_type as nat);
    lemma_field(b, p + e.value_name_len + e.layer_name_len + 12, e.data, e.data_len);
    lemma_u64(b, p + e.value_name_len + e.layer_name_len + e.data_len + 16, e.sequence);
}

proof fn lemma_value_len(e: rsi_value_entry)
    requires
        e.valid(),
        e.accepted(),
    ensures
        e.record().bytes().len() == 24 + e.value_name_len + e.layer_name_len + e.data_len,
{
    broadcast use lemma_le_bytes_len;

    lemma_field_len(e.value_name, e.value_name_len);
    lemma_field_len(e.layer_name, e.layer_name_len);
    lemma_field_len(e.data, e.data_len);
}

proof fn lemma_blanket_at(b: Seq<u8>, p: int, e: rsi_blanket_entry)
    requires
        run_at(b, p, e.record().bytes()),
        e.valid(),
        e.accepted(),
    ensures
        field_at(b, p, e.layer_name, e.layer_name_len),
        u64_at(b, p + e.layer_name_len + 4, e.sequence as int),
{
    broadcast use lemma_le_bytes_len;

    lemma_field_len(e.layer_name, e.layer_name_len);
    lemma_split(b, p, lpf_bytes(c_array_view(e.layer_name, e.layer_name_len)),
        le_bytes(e.sequence as nat, 8));
    lemma_field(b, p, e.layer_name, e.layer_name_len);
    lemma_u64(b, p + e.layer_name_len + 4, e.sequence);
}

proof fn lemma_blanket_len(e: rsi_blanket_entry)
    requires
        e.valid(),
        e.accepted(),
    ensures
        e.record().bytes().len() == 12 + e.layer_name_len,
{
    broadcast use lemma_le_bytes_len;

    lemma_field_len(e.layer_name, e.layer_name_len);
}

proof fn lemma_path_room(ptr: Option<&[rsi_path_entry]>, count: u32, n: int)
    requires
        array_valid(ptr, count),
        array_accepted(ptr, count),
        0 <= n <= count,
    ensures
        concat(array_records(ptr, count).take(n)).len() == path_room(ptr->0@, n),
    decreases n,
{
    let all = array_records(ptr, count);
    let view = c_array_view(ptr, count);
    if n == 0 {
        assert(all.take(0) =~= Seq::empty());
    } else {
        lemma_path_room(ptr, count, n - 1);
        lemma_concat_step(all, n - 1);
        assert(view[n - 1].valid() && view[n - 1].accepted());
        lemma_path_len(view[n - 1]);
    }
}

proof fn lemma_metadata_room(ptr: Option<&[rsi_key_metadata]>, count: u32, n: int)
    requires
        array_valid(ptr, count),
        array_accepted(ptr, count),
        0 <= n <= count,
    ensures
        concat(array_records(ptr, count).take(n)).len() == metadata_room(ptr->0@, n),
    decreases n,
{
    let all = array_records(ptr, count);
    let view = c_array_view(ptr, count);
    if n == 0 {
        assert(all.take(0) =~= Seq::empty());
    } else {
        lemma_metadata_room(ptr, count, n - 1);
        lemma_concat_step(all, n - 1);
        assert(view[n - 1].valid() && view[n - 1].accepted());
        lemma_metadata_len(view[n - 1]);
    }
}

proof fn lemma_value_room(ptr: Option<&[rsi_value_entry]>, count: u32, n: int)
    requires
        array_valid(ptr, count),
        array_accepted(ptr, count),
        0 <= n <= count,
    ensures
        concat(array_records(ptr, count).take(n)).len() == value_room(ptr->0@, n),
    decreases n,
{
    let all = array_records(ptr, count);
    let view = c_array_view(ptr, count);
    if n == 0 {
        assert(all.take(0) =~= Seq::empty());
    } else {
        lemma_value_room(ptr, count, n - 1);
        lemma_concat_step(all, n - 1);
        assert(view[n - 1].valid() && view[n - 1].accepted());
        lemma_value_len(view[n - 1]);
    }
}

proof fn lemma_blanket_room(ptr: Option<&[rsi_blanket_entry]>, count: u32, n: int)
    requires
        array_valid(ptr, count),
        array_accepted(ptr, count),
        0 <= n <= count,
    ensures
        concat(array_records(ptr, count).take(n)).len() == blanket_room(ptr->0@, n),
    decreases n,
{
    let all = array_records(ptr, count);
    let view = c_array_view(ptr, count);
    if n == 0 {
        assert(all.take(0) =~= Seq::empty());
    } else {
        lemma_blanket_room(ptr, count, n - 1);
        lemma_concat_step(all, n - 1);
        assert(view[n - 1].valid() && view[n - 1].accepted());
        lemma_blanket_len(view[n - 1]);
    }
}

proof fn lemma_child_room(ptr: Option<&[rsi_child_entry]>, count: u32, n: int)
    requires
        array_valid(ptr, count),
        array_accepted(ptr, count),
        0 <= n <= count,
    ensures
        concat(array_records(ptr, count).take(n)).len() == child_room(ptr->0@, n),
    decreases n,
{
    let all = array_records(ptr, count);
    let view = c_array_view(ptr, count);
    if n == 0 {
        assert(all.take(0) =~= Seq::empty());
    } else {
        lemma_child_room(ptr, count, n - 1);
        lemma_concat_step(all, n - 1);
        assert(view[n - 1].valid() && view[n - 1].accepted());
        lemma_child_len(view[n - 1]);
    }
}

proof fn lemma_child_len(e: rsi_child_entry)
    requires
        e.valid(),
        e.accepted(),
    ensures
        e.record().bytes().len() == 8 + e.child_name_len + path_room(
            e.entries->0@,
            e.entry_count as int,
        ),
{
    lemma_field_len(e.child_name, e.child_name_len);
    let all = array_records(e.entries, e.entry_count);
    lemma_le_bytes_len(all.len(), 4);
    lemma_path_room(e.entries, e.entry_count, e.entry_count as int);
    assert(all.take(e.entry_count as int) =~= all);
}

/// A list of path structures, from `at` on.
pub proof fn lemma_path_block(b: Seq<u8>, at: int, ptr: Option<&[rsi_path_entry]>, count: u32)
    requires
        run_at(b, at, block_bytes(array_records(ptr, count))),
        array_valid(ptr, count),
        array_accepted(ptr, count),
    ensures
        u32_at(b, at, count as int),
        block_bytes(array_records(ptr, count)).len() == 4 + path_room(ptr->0@, count as int),
        ({
            let s = ptr->0@;
            forall|i: int|
                0 <= i < count ==> {
                    let p = at + 4 + #[trigger] path_room(s, i);
                    &&& field_at(b, p, s[i].layer, s[i].layer_len)
                    &&& b[p + s[i].layer_len + 4] == s[i].target_type
                    &&& guid_at(b, p + s[i].layer_len + 5, s[i].target_guid)
                    &&& u64_at(b, p + s[i].layer_len + 21, s[i].sequence as int)
                }
        }),
{
    let s = ptr->0@;
    let all = array_records(ptr, count);
    let view = c_array_view(ptr, count);
    lemma_le_bytes_len(all.len(), 4);
    assert(all.len() == count);
    lemma_split(b, at, le_bytes(all.len(), 4), concat(all));
    lemma_u32(b, at, all.len());
    lemma_path_room(ptr, count, count as int);
    assert(all.take(count as int) =~= all);
    assert forall|i: int| 0 <= i < count implies {
        let p = at + 4 + #[trigger] path_room(s, i);
        &&& field_at(b, p, s[i].layer, s[i].layer_len)
        &&& b[p + s[i].layer_len + 4] == s[i].target_type
        &&& guid_at(b, p + s[i].layer_len + 5, s[i].target_guid)
        &&& u64_at(b, p + s[i].layer_len + 21, s[i].sequence as int)
    } by {
        lemma_path_room(ptr, count, i);
        lemma_record_at(b, at + 4, all, i);
        assert(view[i].valid() && view[i].accepted());
        lemma_path_at(b, at + 4 + path_room(s, i), view[i]);
    }
}

/// A list of metadata structures, from `at` on.
pub proof fn lemma_metadata_block(b: Seq<u8>, at: int, ptr: Option<&[rsi_key_metadata]>, count: u32)
    requires
        run_at(b, at, block_bytes(array_records(ptr, count))),
        array_valid(ptr, count),
        array_accepted(ptr, count),
    ensures
        u32_at(b, at, count as int),
        block_bytes(array_records(ptr, count)).len() == 4 + metadata_room(ptr->0@, count as int),
        ({
            let s = ptr->0@;
            forall|i: int|
                0 <= i < count ==> {
                    let p = at + 4 + #[trigger] metadata_room(s, i);
                    &&& guid_at(b, p, s[i].guid)
                    &&& field_at(b, p + 16, s[i].sd, s[i].sd_len)
                    &&& b[p + s[i].sd_len + 20] == s[i].volatile_key
                    &&& b[p + s[i].sd_len + 21] == s[i].symlink
                    &&& u64_at(b, p + s[i].sd_len + 22, s[i].last_write_time as int)
                }
        }),
{
    let s = ptr->0@;
    let all = array_records(ptr, count);
    let view = c_array_view(ptr, count);
    lemma_le_bytes_len(all.len(), 4);
    assert(all.len() == count);
    lemma_split(b, at, le_bytes(all.len(), 4), concat(all));
    lemma_u32(b, at, all.len());
    lemma_metadata_room(ptr, count, count as int);
    assert(all.take(count as int) =~= all);
    assert forall|i: int| 0 <= i < count implies {
        let p = at + 4 + #[trigger] metadata_room(s, i);
        &&& guid_at(b, p, s[i].guid)
        &&& field_at(b, p + 16, s[i].sd, s[i].sd_len)
        &&& b[p + s[i].sd_len + 20] == s[i].volatile_key
        &&& b[p + s[i].sd_len + 21] == s[i].symlink
        &&& u64_at(b, p + s[i].sd_len + 22, s[i].last_write_time as int)
    } by {
        lemma_metadata_room(ptr, count, i);
        lemma_record_at(b, at + 4, all, i);
        assert(view[i].valid() && view[i].accepted());
        lemma_metadata_at(b, at + 4 + metadata_room(s, i), view[i]);
    }
}

/// A list of value structures, from `at` on.
pub proof fn lemma_value_block(b: Seq<u8>, at: int, ptr: Option<&[rsi_value_entry]>, count: u32)
    requires
        run_at(b, at, block_bytes(array_records(ptr, count))),
        array_valid(ptr, count),
        array_accepted(ptr, count),
    ensures
        u32_at(b, at, count as int),
        block_bytes(array_records(ptr, count)).len() == 4 + value_room(ptr->0@, count as int),
        ({
            let s = ptr->0@;
            forall|i: int|
                0 <= i < count ==> {
                    let p = at + 4 + #[trigger] value_room(s, i);
                    &&& field_at(b, p, s[i].value_name, s[i].value_name_len)
                    &&& field_at(b, p + s[i].value_name_len + 4, s[i].layer_name,
                        s[i].layer_name_len)
                    &&& u32_at(b, p + s[i].value_name_len + s[i].layer_name_len + 8,
                        s[i].value_type as int)
                    &&& field_at(b, p + s[i].value_name_len + s[i].layer_name_len + 12, s[i].data,
                        s[i].data_len)
                    &&& u64_at(b,
                        p + s[i].value_name_len + s[i].layer_name_len + s[i].data_len + 16,
                            s[i].sequence as int)
                }
        }),
{
    let s = ptr->0@;
    let all = array_records(ptr, count);
    let view = c_array_view(ptr, count);
    lemma_le_bytes_len(all.len(), 4);
    assert(all.len() == count);
    lemma_split(b, at, le_bytes(all.len(), 4), concat(all));
    lemma_u32(b, at, all.len());
    lemma_value_room(ptr, count, count as int);
    assert(all.take(count as int) =~= all);
    assert forall|i: int| 0 <= i < count implies {
        let p = at + 4 + #[trigger] value_room(s, i);
        &&& field_at(b, p, s[i].value_name, s[i].value_name_len)
        &&& field_at(b, p + s[i].value_name_len + 4, s[i].layer_name, s[i].layer_name_len)
        &&& u32_at(b, p + s[i].value_name_len + s[i].layer_name_len + 8, s[i].value_type as int)
        &&& field_at(b, p + s[i].value_name_len + s[i].layer_name_len + 12, s[i].data,
            s[i].data_len)
        &&& u64_at(b, p + s[i].value_name_len + s[i].layer_name_len + s[i].data_len + 16,
            s[i].sequence as int)
    } by {
        lemma_value_room(ptr, count, i);
        lemma_record_at(b, at + 4, all, i);
        assert(view[i].valid() && view[i].accepted());
        lemma_value_at(b, at + 4 + value_room(s, i), view[i]);
    }
}

/// A list of blanket structures, from `at` on.
pub proof fn lemma_blanket_block(b: Seq<u8>, at: int, ptr: Option<&[rsi_blanket_entry]>, count: u32)
    requires
        run_at(b, at, block_bytes(array_records(ptr, count))),
        array_valid(ptr, count),
        array_accepted(ptr, count),
    ensures
        u32_at(b, at, count as int),
        block_bytes(array_records(ptr, count)).len() == 4 + blanket_room(ptr->0@, count as int),
        ({
            let s = ptr->0@;
            forall|i: int|
                0 <= i < count ==> {
                    let p = at + 4 + #[trigger] blanket_room(s, i);
                    &&& field_at(b, p, s[i].layer_name, s[i].layer_name_len)
                    &&& u64_at(b, p + s[i].layer_name_len + 4, s[i].sequence as int)
                }
        }),
{
    let s = ptr->0@;
    let all = array_records(ptr, count);
    let view = c_array_view(ptr, count);
    lemma_le_bytes_len(all.len(), 4);
    assert(all.len() == count);
    lemma_split(b, at, le_bytes(all.len(), 4), concat(all));
    lemma_u32(b, at, all.len());
    lemma_blanket_room(ptr, count, count as int);
    assert(all.take(count as int) =~= all);
    assert forall|i: int| 0 <= i < count implies {
        let p = at + 4 + #[trigger] blanket_room(s, i);
        &&& field_at(b, p, s[i].layer_name, s[i].layer_name_len)
        &&& u64_at(b, p + s[i].layer_name_len + 4, s[i].sequence as int)
    } by {
        lemma_blanket_room(ptr, count, i);
        lemma_record_at(b, at + 4, all, i);
        assert(view[i].valid() && view[i].accepted());
        lemma_blanket_at(b, at + 4 + blanket_room(s, i), view[i]);
    }
}

/// A list of children, from `at` on.
pub proof fn lemma_child_block(
    b: Seq<u8>,
    at: int,
    ptr: Option<&[rsi_child_entry]>,
    count: u32,
)
    requires
        run_at(b, at, block_bytes(array_records(ptr, count))),
        array_valid(ptr, count),
        array_accepted(ptr, count),
    ensures
        u32_at(b, at, count as int),
        block_bytes(array_records(ptr, count)).len() == 4 + child_room(ptr->0@, count as int),
        ({
            let s = ptr->0@;
            forall|i: int|
                0 <= i < count ==> {
                    let p = at + 4 + #[trigger] child_room(s, i);
                    &&& field_at(b, p, s[i].child_name, s[i].child_name_len)
                    &&& u32_at(b, p + 4 + s[i].child_name_len, s[i].entry_count as int)
                    &&& s[i].entry_count > 0 ==> s[i].entries is Some
                    &&& forall|j: int|
                        0 <= j < s[i].entry_count ==> {
                            let e = s[i].entries->0@;
                            let q = p + 8 + s[i].child_name_len + #[trigger] path_room(s[i].entries->0@, j);
                            &&& field_at(b, q, e[j].layer, e[j].layer_len)
                            &&& b[q + e[j].layer_len + 4] == e[j].target_type
                            &&& guid_at(b, q + e[j].layer_len + 5, e[j].target_guid)
                            &&& u64_at(b, q + e[j].layer_len + 21, e[j].sequence as int)
                        }
                }
        }),
{
    let s = ptr->0@;
    let all = array_records(ptr, count);
    let view = c_array_view(ptr, count);
    lemma_le_bytes_len(all.len(), 4);
    assert(all.len() == count);
    lemma_split(b, at, le_bytes(all.len(), 4), concat(all));
    lemma_u32(b, at, all.len());
    lemma_child_room(ptr, count, count as int);
    assert(all.take(count as int) =~= all);
    assert forall|i: int| 0 <= i < count implies {
        let p = at + 4 + #[trigger] child_room(s, i);
        &&& field_at(b, p, s[i].child_name, s[i].child_name_len)
        &&& u32_at(b, p + 4 + s[i].child_name_len, s[i].entry_count as int)
        &&& s[i].entry_count > 0 ==> s[i].entries is Some
        &&& forall|j: int|
            0 <= j < s[i].entry_count ==> {
                let e = s[i].entries->0@;
                let q = p + 8 + s[i].child_name_len + #[trigger] path_room(s[i].entries->0@, j);
                &&& field_at(b, q, e[j].layer, e[j].layer_len)
                &&& b[q + e[j].layer_len + 4] == e[j].target_type
                &&& guid_at(b, q + e[j].layer_len + 5, e[j].target_guid)
                &&& u64_at(b, q + e[j].layer_len + 21, e[j].sequence as int)
            }
    } by {
        let p = at + 4 + child_room(s, i);
        lemma_child_room(ptr, count, i);
        lemma_record_at(b, at + 4, all, i);
        assert(view[i].valid() && view[i].accepted());
        let c = view[i];
        lemma_field_len(c.child_name, c.child_name_len);
        lemma_split(
            b,
            p,
            lpf_bytes(c_array_view(c.child_name, c.child_name_len)),
            block_bytes(array_records(c.entries, c.entry_count)),
        );
        lemma_field(b, p, c.child_name, c.child_name_len);
        lemma_path_block(b, p + 4 + c.child_name_len, c.entries, c.entry_count);
    }
}

} // verus!
