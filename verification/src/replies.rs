//! What the frame of a reply says of the arguments it was made from.
//!
//! Each law takes what a builder promises of its result, and states it of the structures
//! and counts that were handed over and of the bytes of the frame.
use vstd::prelude::*;

use crate::c_array::{c_array_present, c_array_valid, c_array_view};
use crate::completeness::{enum_children_metadata_asks, lookup_metadata_asks};
use crate::entries::{
    array_accepted, array_fits, array_records, array_valid, rsi_blanket_entry, rsi_child_entry,
    rsi_key_metadata, rsi_path_entry, rsi_value_entry, CRecord,
};
use crate::errno::Errno;
use crate::frame::response_frame;
use crate::guids::Guid;
use crate::laws::replies_are_told_apart;
use crate::little_endian::{le_bytes, lemma_le_bytes_len};
use crate::records::{block_bytes, concat, lpf_bytes, DeleteLayerReply, WireRecord};
use crate::request::rsi_request;
use crate::response::{
    asks_for, enum_children_accepted, enum_children_reply, guid_chunks, is_reply,
    lemma_chunks_concat, lookup_accepted, lookup_reply, orphans_accepted, orphans_valid,
    orphans_view, query_values_reply, read_key_accepted, read_key_reply, status_reply_ok,
};
use crate::vocabulary::{response_op, OpInfo, RsiAbi, StatusInfo};
use crate::wire::{
    blanket_room, child_room, field_at, guid_at, head_at, lemma_blanket_block, lemma_byte,
    lemma_child_block, lemma_field, lemma_field_len, lemma_guid, lemma_head, lemma_metadata_block,
    lemma_path_block, lemma_split, lemma_u32, lemma_u64, lemma_value_block, metadata_room,
    path_room, u32_at, u64_at, value_room,
};

verus! {

proof fn lemma_same_payload(
    q1: &rsi_request,
    q2: &rsi_request,
    status: u32,
    a: Seq<u8>,
    b: Seq<u8>,
    frame: Seq<u8>,
)
    requires
        frame == response_frame(q1.request_id, response_op(q1.op_code), status, a),
        frame == response_frame(q2.request_id, response_op(q2.op_code), status, b),
        frame.len() <= u32::MAX,
    ensures
        q1.request_id == q2.request_id,
        a == b,
{
    lemma_head(frame, q1, status, a);
    lemma_head(frame, q2, status, b);
}

proof fn lemma_same_field(x: Option<&[u8]>, m: u32, y: Option<&[u8]>, n: u32)
    requires
        c_array_valid(x, m),
        c_array_valid(y, n),
        c_array_present(x, m),
        c_array_present(y, n),
        c_array_view(x, m) == c_array_view(y, n),
    ensures
        m == n,
        forall|k: int| 0 <= k < m ==> #[trigger] x->0@[k] == y->0@[k],
{
    assert(c_array_view(x, m).len() == m);
    assert(c_array_view(y, n).len() == n);
    assert forall|k: int| 0 <= k < m implies #[trigger] x->0@[k] == y->0@[k] by {
        assert(c_array_view(x, m)[k] == x->0@[k]);
        assert(c_array_view(y, n)[k] == y->0@[k]);
    }
}

/// The frame that answers a LOOKUP holds every structure that the caller handed over, in
/// order and field by field, and nothing else. It is refused as too long only where it is.
pub proof fn lookup_frame_holds_what_was_handed_over(
    abi: &RsiAbi,
    op_known: bool,
    req: Option<&rsi_request>,
    entries: Option<&[rsi_path_entry]>,
    entry_count: u32,
    metadata: Option<&[rsi_key_metadata]>,
    metadata_count: u32,
    r: Result<Vec<u8>, Errno>,
)
    requires
        array_valid(entries, entry_count),
        array_valid(metadata, metadata_count),
        is_reply(
            r,
            req,
            asks_for(req, abi.lookup) && op_known && lookup_accepted(
                entries,
                entry_count,
                metadata,
                metadata_count,
            ),
            asks_for(req, abi.lookup) && (lookup_metadata_asks(
                entries,
                entry_count,
                metadata,
                metadata_count,
            ) || (op_known && lookup_accepted(entries, entry_count, metadata, metadata_count))),
            abi.ok,
            lookup_reply(entries, entry_count, metadata, metadata_count).bytes(),
        ),
    ensures
        r matches Ok(frame) ==> {
            let b = frame@;
            let s = entries->0@;
            let u = metadata->0@;
            let mid = 22 + path_room(s, entry_count as int);
            &&& head_at(b, req, abi.ok)
            &&& u32_at(b, 18, entry_count as int)
            &&& entry_count > 0 ==> entries is Some
            &&& forall|i: int|
                0 <= i < entry_count ==> {
                    let p = 22 + #[trigger] path_room(s, i);
                    &&& field_at(b, p, s[i].layer, s[i].layer_len)
                    &&& b[p + s[i].layer_len + 4] == s[i].target_type
                    &&& guid_at(b, p + s[i].layer_len + 5, s[i].target_guid)
                    &&& u64_at(b, p + s[i].layer_len + 21, s[i].sequence as int)
                }
            &&& u32_at(b, mid, metadata_count as int)
            &&& metadata_count > 0 ==> metadata is Some
            &&& forall|i: int|
                0 <= i < metadata_count ==> {
                    let p = mid + 4 + #[trigger] metadata_room(u, i);
                    &&& guid_at(b, p, u[i].guid)
                    &&& field_at(b, p + 16, u[i].sd, u[i].sd_len)
                    &&& b[p + u[i].sd_len + 20] == u[i].volatile_key
                    &&& b[p + u[i].sd_len + 21] == u[i].symlink
                    &&& u64_at(b, p + u[i].sd_len + 22, u[i].last_write_time as int)
                }
            &&& b.len() == mid + 4 + metadata_room(u, metadata_count as int)
        },
        r == Err::<Vec<u8>, Errno>(Errno::EOVERFLOW) ==> 26 + path_room(entries->0@,
            entry_count as int)
            + metadata_room(metadata->0@, metadata_count as int) > u32::MAX,
{
    let payload = lookup_reply(entries, entry_count, metadata, metadata_count).bytes();
    let x = block_bytes(array_records(entries, entry_count));
    let y = block_bytes(array_records(metadata, metadata_count));
    if r is Ok || r == Err::<Vec<u8>, Errno>(Errno::EOVERFLOW) {
        assert(x.subrange(0, x.len() as int) =~= x);
        assert(y.subrange(0, y.len() as int) =~= y);
        lemma_path_block(x, 0, entries, entry_count);
        lemma_metadata_block(y, 0, metadata, metadata_count);
    }
    if let Ok(frame) = r {
        let b = frame@;
        lemma_head(b, req->0, abi.ok, payload);
        lemma_split(b, 18, x, y);
        lemma_path_block(b, 18, entries, entry_count);
        lemma_metadata_block(b, 18 + x.len() as int, metadata, metadata_count);
    }
}

/// The frame that answers an ENUM_CHILDREN holds every structure that the caller handed over, in
/// order and field by field, and nothing else. It is refused as too long only where it is.
pub proof fn enum_children_frame_holds_what_was_handed_over(
    abi: &RsiAbi,
    op_known: bool,
    req: Option<&rsi_request>,
    children: Option<&[rsi_child_entry]>,
    child_count: u32,
    metadata: Option<&[rsi_key_metadata]>,
    metadata_count: u32,
    r: Result<Vec<u8>, Errno>,
)
    requires
        array_valid(children, child_count),
        array_valid(metadata, metadata_count),
        is_reply(
            r,
            req,
            asks_for(req, abi.enum_children) && op_known && enum_children_accepted(
                children,
                child_count,
                metadata,
                metadata_count,
            ),
            asks_for(req, abi.enum_children) && (enum_children_metadata_asks(
                children,
                child_count,
                metadata,
                metadata_count,
            ) || (op_known && enum_children_accepted(children, child_count, metadata,
                metadata_count))),
            abi.ok,
            enum_children_reply(children, child_count, metadata, metadata_count).bytes(),
        ),
    ensures
        r matches Ok(frame) ==> {
            let b = frame@;
            let s = children->0@;
            let u = metadata->0@;
            let mid = 22 + child_room(s, child_count as int);
            &&& head_at(b, req, abi.ok)
            &&& u32_at(b, 18, child_count as int)
            &&& child_count > 0 ==> children is Some
            &&& forall|i: int|
                0 <= i < child_count ==> {
                    let p = 22 + #[trigger] child_room(s, i);
                    &&& field_at(b, p, s[i].child_name, s[i].child_name_len)
                    &&& u32_at(b, p + 4 + s[i].child_name_len, s[i].entry_count as int)
                    &&& s[i].entry_count > 0 ==> s[i].entries is Some
                    &&& forall|j: int|
                        0 <= j < s[i].entry_count ==> {
                            let e = s[i].entries->0@;
                            let q = p + 8 + s[i].child_name_len + #[trigger] path_room(
                                s[i].entries->0@,
                                j,
                            );
                            &&& field_at(b, q, e[j].layer, e[j].layer_len)
                            &&& b[q + e[j].layer_len + 4] == e[j].target_type
                            &&& guid_at(b, q + e[j].layer_len + 5, e[j].target_guid)
                            &&& u64_at(b, q + e[j].layer_len + 21, e[j].sequence as int)
                        }
                }
            &&& u32_at(b, mid, metadata_count as int)
            &&& metadata_count > 0 ==> metadata is Some
            &&& forall|i: int|
                0 <= i < metadata_count ==> {
                    let p = mid + 4 + #[trigger] metadata_room(u, i);
                    &&& guid_at(b, p, u[i].guid)
                    &&& field_at(b, p + 16, u[i].sd, u[i].sd_len)
                    &&& b[p + u[i].sd_len + 20] == u[i].volatile_key
                    &&& b[p + u[i].sd_len + 21] == u[i].symlink
                    &&& u64_at(b, p + u[i].sd_len + 22, u[i].last_write_time as int)
                }
            &&& b.len() == mid + 4 + metadata_room(u, metadata_count as int)
        },
        r == Err::<Vec<u8>, Errno>(Errno::EOVERFLOW) ==> 26 + child_room(children->0@,
            child_count as int)
            + metadata_room(metadata->0@, metadata_count as int) > u32::MAX,
{
    let payload = enum_children_reply(children, child_count, metadata, metadata_count).bytes();
    let x = block_bytes(array_records(children, child_count));
    let y = block_bytes(array_records(metadata, metadata_count));
    if r is Ok || r == Err::<Vec<u8>, Errno>(Errno::EOVERFLOW) {
        assert(x.subrange(0, x.len() as int) =~= x);
        assert(y.subrange(0, y.len() as int) =~= y);
        lemma_child_block(x, 0, children, child_count);
        lemma_metadata_block(y, 0, metadata, metadata_count);
    }
    if let Ok(frame) = r {
        let b = frame@;
        lemma_head(b, req->0, abi.ok, payload);
        lemma_split(b, 18, x, y);
        lemma_child_block(b, 18, children, child_count);
        lemma_metadata_block(b, 18 + x.len() as int, metadata, metadata_count);
    }
}

/// The frame that answers a QUERY_VALUES holds every structure that the caller handed over, in
/// order and field by field, and nothing else. It is refused as too long only where it is.
pub proof fn query_values_frame_holds_what_was_handed_over(
    abi: &RsiAbi,
    op_known: bool,
    req: Option<&rsi_request>,
    entries: Option<&[rsi_value_entry]>,
    entry_count: u32,
    blankets: Option<&[rsi_blanket_entry]>,
    blanket_count: u32,
    r: Result<Vec<u8>, Errno>,
)
    requires
        array_valid(entries, entry_count),
        array_valid(blankets, blanket_count),
        is_reply(
            r,
            req,
            asks_for(req, abi.query_values) && op_known && array_accepted(entries, entry_count)
                && array_accepted(blankets, blanket_count),
            asks_for(req, abi.query_values) && op_known && array_accepted(entries, entry_count)
                && array_accepted(blankets, blanket_count),
            abi.ok,
            query_values_reply(entries, entry_count, blankets, blanket_count).bytes(),
        ),
    ensures
        r matches Ok(frame) ==> {
            let b = frame@;
            let s = entries->0@;
            let u = blankets->0@;
            let mid = 22 + value_room(s, entry_count as int);
            &&& head_at(b, req, abi.ok)
            &&& u32_at(b, 18, entry_count as int)
            &&& entry_count > 0 ==> entries is Some
            &&& forall|i: int|
                0 <= i < entry_count ==> {
                    let p = 22 + #[trigger] value_room(s, i);
                    &&& field_at(b, p, s[i].value_name, s[i].value_name_len)
                    &&& field_at(b, p + s[i].value_name_len + 4, s[i].layer_name,
                        s[i].layer_name_len)
                    &&& u32_at(b, p + s[i].value_name_len + s[i].layer_name_len + 8,
                        s[i].value_type as int)
                    &&& field_at(b, p + s[i].value_name_len + s[i].layer_name_len + 12, s[i].data,
                        s[i].data_len)
                    &&& u64_at(b,
                        p + s[i].value_name_len + s[i].layer_name_len + s[i].data_len + 16,
                            s[i].sequence as int)
                }
            &&& u32_at(b, mid, blanket_count as int)
            &&& blanket_count > 0 ==> blankets is Some
            &&& forall|i: int|
                0 <= i < blanket_count ==> {
                    let p = mid + 4 + #[trigger] blanket_room(u, i);
                    &&& field_at(b, p, u[i].layer_name, u[i].layer_name_len)
                    &&& u64_at(b, p + u[i].layer_name_len + 4, u[i].sequence as int)
                }
            &&& b.len() == mid + 4 + blanket_room(u, blanket_count as int)
        },
        r == Err::<Vec<u8>, Errno>(Errno::EOVERFLOW) ==> 26 + value_room(entries->0@,
            entry_count as int)
            + blanket_room(blankets->0@, blanket_count as int) > u32::MAX,
{
    let payload = query_values_reply(entries, entry_count, blankets, blanket_count).bytes();
    let x = block_bytes(array_records(entries, entry_count));
    let y = block_bytes(array_records(blankets, blanket_count));
    if r is Ok || r == Err::<Vec<u8>, Errno>(Errno::EOVERFLOW) {
        assert(x.subrange(0, x.len() as int) =~= x);
        assert(y.subrange(0, y.len() as int) =~= y);
        lemma_value_block(x, 0, entries, entry_count);
        lemma_blanket_block(y, 0, blankets, blanket_count);
    }
    if let Ok(frame) = r {
        let b = frame@;
        lemma_head(b, req->0, abi.ok, payload);
        lemma_split(b, 18, x, y);
        lemma_value_block(b, 18, entries, entry_count);
        lemma_blanket_block(b, 18 + x.len() as int, blankets, blanket_count);
    }
}

proof fn lemma_same_path(x: Option<&[rsi_path_entry]>, m: u32, y: Option<&[rsi_path_entry]>, n: u32)
    requires
        array_valid(x, m),
        array_valid(y, n),
        array_accepted(x, m),
        array_accepted(y, n),
        array_records(x, m) == array_records(y, n),
    ensures
        m == n,
        ({
            let p = x->0@;
            let q = y->0@;
            forall|i: int|
                #![trigger p[i]]
                0 <= i < m ==> {
                    &&& p[i].layer_len == q[i].layer_len
                    &&& forall|k: int| 0 <= k < p[i].layer_len
                        ==> #[trigger] p[i].layer->0@[k] == q[i].layer->0@[k]
                    &&& p[i].target_type == q[i].target_type
                    &&& p[i].target_guid == q[i].target_guid
                    &&& p[i].sequence == q[i].sequence
                }
        }),
{
    let p = x->0@;
    let q = y->0@;
    assert(array_records(x, m).len() == m);
    assert(array_records(y, n).len() == n);
    assert forall|i: int|
        #![trigger p[i]]
        0 <= i < m implies {
        &&& p[i].layer_len == q[i].layer_len
        &&& forall|k: int| 0 <= k < p[i].layer_len
            ==> #[trigger] p[i].layer->0@[k] == q[i].layer->0@[k]
        &&& p[i].target_type == q[i].target_type
        &&& p[i].target_guid == q[i].target_guid
        &&& p[i].sequence == q[i].sequence
    } by {
        let v = c_array_view(x, m)[i];
        let w = c_array_view(y, n)[i];
        assert(v.valid() && v.accepted() && w.valid() && w.accepted());
        assert(array_records(x, m)[i] == array_records(y, n)[i]);
        assert(v.record() == w.record());
        lemma_same_field(v.layer, v.layer_len, w.layer, w.layer_len);
    }
}

proof fn lemma_same_metadata(x: Option<&[rsi_key_metadata]>, m: u32,
    y: Option<&[rsi_key_metadata]>, n: u32)
    requires
        array_valid(x, m),
        array_valid(y, n),
        array_accepted(x, m),
        array_accepted(y, n),
        array_records(x, m) == array_records(y, n),
    ensures
        m == n,
        ({
            let p = x->0@;
            let q = y->0@;
            forall|i: int|
                #![trigger p[i]]
                0 <= i < m ==> {
                    &&& p[i].guid == q[i].guid
                    &&& p[i].sd_len == q[i].sd_len
                    &&& forall|k: int| 0 <= k < p[i].sd_len
                        ==> #[trigger] p[i].sd->0@[k] == q[i].sd->0@[k]
                    &&& p[i].volatile_key == q[i].volatile_key
                    &&& p[i].symlink == q[i].symlink
                    &&& p[i].last_write_time == q[i].last_write_time
                }
        }),
{
    let p = x->0@;
    let q = y->0@;
    assert(array_records(x, m).len() == m);
    assert(array_records(y, n).len() == n);
    assert forall|i: int|
        #![trigger p[i]]
        0 <= i < m implies {
        &&& p[i].guid == q[i].guid
        &&& p[i].sd_len == q[i].sd_len
        &&& forall|k: int| 0 <= k < p[i].sd_len ==> #[trigger] p[i].sd->0@[k] == q[i].sd->0@[k]
        &&& p[i].volatile_key == q[i].volatile_key
        &&& p[i].symlink == q[i].symlink
        &&& p[i].last_write_time == q[i].last_write_time
    } by {
        let v = c_array_view(x, m)[i];
        let w = c_array_view(y, n)[i];
        assert(v.valid() && v.accepted() && w.valid() && w.accepted());
        assert(array_records(x, m)[i] == array_records(y, n)[i]);
        assert(v.record() == w.record());
        lemma_same_field(v.sd, v.sd_len, w.sd, w.sd_len);
    }
}

proof fn lemma_same_value(x: Option<&[rsi_value_entry]>, m: u32, y: Option<&[rsi_value_entry]>,
    n: u32)
    requires
        array_valid(x, m),
        array_valid(y, n),
        array_accepted(x, m),
        array_accepted(y, n),
        array_records(x, m) == array_records(y, n),
    ensures
        m == n,
        ({
            let p = x->0@;
            let q = y->0@;
            forall|i: int|
                #![trigger p[i]]
                0 <= i < m ==> {
                    &&& p[i].value_name_len == q[i].value_name_len
                    &&& forall|k: int| 0 <= k < p[i].value_name_len
                        ==> #[trigger] p[i].value_name->0@[k] == q[i].value_name->0@[k]
                    &&& p[i].layer_name_len == q[i].layer_name_len
                    &&& forall|k: int| 0 <= k < p[i].layer_name_len
                        ==> #[trigger] p[i].layer_name->0@[k] == q[i].layer_name->0@[k]
                    &&& p[i].value_type == q[i].value_type
                    &&& p[i].data_len == q[i].data_len
                    &&& forall|k: int| 0 <= k < p[i].data_len
                        ==> #[trigger] p[i].data->0@[k] == q[i].data->0@[k]
                    &&& p[i].sequence == q[i].sequence
                }
        }),
{
    let p = x->0@;
    let q = y->0@;
    assert(array_records(x, m).len() == m);
    assert(array_records(y, n).len() == n);
    assert forall|i: int|
        #![trigger p[i]]
        0 <= i < m implies {
        &&& p[i].value_name_len == q[i].value_name_len
        &&& forall|k: int| 0 <= k < p[i].value_name_len
            ==> #[trigger] p[i].value_name->0@[k] == q[i].value_name->0@[k]
        &&& p[i].layer_name_len == q[i].layer_name_len
        &&& forall|k: int| 0 <= k < p[i].layer_name_len
            ==> #[trigger] p[i].layer_name->0@[k] == q[i].layer_name->0@[k]
        &&& p[i].value_type == q[i].value_type
        &&& p[i].data_len == q[i].data_len
        &&& forall|k: int| 0 <= k < p[i].data_len
            ==> #[trigger] p[i].data->0@[k] == q[i].data->0@[k]
        &&& p[i].sequence == q[i].sequence
    } by {
        let v = c_array_view(x, m)[i];
        let w = c_array_view(y, n)[i];
        assert(v.valid() && v.accepted() && w.valid() && w.accepted());
        assert(array_records(x, m)[i] == array_records(y, n)[i]);
        assert(v.record() == w.record());
        lemma_same_field(v.value_name, v.value_name_len, w.value_name, w.value_name_len);
        lemma_same_field(v.layer_name, v.layer_name_len, w.layer_name, w.layer_name_len);
        lemma_same_field(v.data, v.data_len, w.data, w.data_len);
    }
}

proof fn lemma_same_blanket(x: Option<&[rsi_blanket_entry]>, m: u32,
    y: Option<&[rsi_blanket_entry]>, n: u32)
    requires
        array_valid(x, m),
        array_valid(y, n),
        array_accepted(x, m),
        array_accepted(y, n),
        array_records(x, m) == array_records(y, n),
    ensures
        m == n,
        ({
            let p = x->0@;
            let q = y->0@;
            forall|i: int|
                #![trigger p[i]]
                0 <= i < m ==> {
                    &&& p[i].layer_name_len == q[i].layer_name_len
                    &&& forall|k: int| 0 <= k < p[i].layer_name_len
                        ==> #[trigger] p[i].layer_name->0@[k] == q[i].layer_name->0@[k]
                    &&& p[i].sequence == q[i].sequence
                }
        }),
{
    let p = x->0@;
    let q = y->0@;
    assert(array_records(x, m).len() == m);
    assert(array_records(y, n).len() == n);
    assert forall|i: int|
        #![trigger p[i]]
        0 <= i < m implies {
        &&& p[i].layer_name_len == q[i].layer_name_len
        &&& forall|k: int| 0 <= k < p[i].layer_name_len
            ==> #[trigger] p[i].layer_name->0@[k] == q[i].layer_name->0@[k]
        &&& p[i].sequence == q[i].sequence
    } by {
        let v = c_array_view(x, m)[i];
        let w = c_array_view(y, n)[i];
        assert(v.valid() && v.accepted() && w.valid() && w.accepted());
        assert(array_records(x, m)[i] == array_records(y, n)[i]);
        assert(v.record() == w.record());
        lemma_same_field(v.layer_name, v.layer_name_len, w.layer_name, w.layer_name_len);
    }
}

proof fn lemma_same_child(x: Option<&[rsi_child_entry]>, m: u32, y: Option<&[rsi_child_entry]>,
    n: u32)
    requires
        array_valid(x, m),
        array_valid(y, n),
        array_accepted(x, m),
        array_accepted(y, n),
        array_records(x, m) == array_records(y, n),
    ensures
        m == n,
        ({
            let p = x->0@;
            let q = y->0@;
            forall|i: int|
                #![trigger p[i]]
                0 <= i < m ==> {
                    &&& p[i].child_name_len == q[i].child_name_len
                    &&& forall|k: int| 0 <= k < p[i].child_name_len
                        ==> #[trigger] p[i].child_name->0@[k] == q[i].child_name->0@[k]
                    &&& p[i].entry_count == q[i].entry_count
                    &&& forall|j: int|
                        #![trigger p[i].entries->0@[j]]
                        0 <= j < p[i].entry_count ==> {
                            &&& p[i].entries->0@[j].layer_len == q[i].entries->0@[j].layer_len
                            &&& forall|k: int| 0 <= k < p[i].entries->0@[j].layer_len
                                ==> #[trigger] p[i].entries->0@[j].layer->0@[k] == q[i].entries->0@[j].layer->0@[k]
                            &&& p[i].entries->0@[j].target_type == q[i].entries->0@[j].target_type
                            &&& p[i].entries->0@[j].target_guid == q[i].entries->0@[j].target_guid
                            &&& p[i].entries->0@[j].sequence == q[i].entries->0@[j].sequence
                        }
                }
        }),
{
    let p = x->0@;
    let q = y->0@;
    assert(array_records(x, m).len() == m);
    assert(array_records(y, n).len() == n);
    assert forall|i: int|
        #![trigger p[i]]
        0 <= i < m implies {
        &&& p[i].child_name_len == q[i].child_name_len
        &&& forall|k: int| 0 <= k < p[i].child_name_len
            ==> #[trigger] p[i].child_name->0@[k] == q[i].child_name->0@[k]
        &&& p[i].entry_count == q[i].entry_count
        &&& forall|j: int|
            #![trigger p[i].entries->0@[j]]
            0 <= j < p[i].entry_count ==> {
                &&& p[i].entries->0@[j].layer_len == q[i].entries->0@[j].layer_len
                &&& forall|k: int| 0 <= k < p[i].entries->0@[j].layer_len
                    ==> #[trigger] p[i].entries->0@[j].layer->0@[k] == q[i].entries->0@[j].layer->0@[k]
                &&& p[i].entries->0@[j].target_type == q[i].entries->0@[j].target_type
                &&& p[i].entries->0@[j].target_guid == q[i].entries->0@[j].target_guid
                &&& p[i].entries->0@[j].sequence == q[i].entries->0@[j].sequence
            }
    } by {
        let v = c_array_view(x, m)[i];
        let w = c_array_view(y, n)[i];
        assert(v.valid() && v.accepted() && w.valid() && w.accepted());
        assert(array_records(x, m)[i] == array_records(y, n)[i]);
        assert(v.record() == w.record());
        lemma_same_field(v.child_name, v.child_name_len, w.child_name, w.child_name_len);
        lemma_same_path(v.entries, v.entry_count, w.entries, w.entry_count);
    }
}

/// Two LOOKUP replies with the same frame were made from the same arguments: no field of any
/// structure is left out of the frame.
pub proof fn lookup_frame_tells_what_was_handed_over(
    abi: &RsiAbi,
    op_known: bool,
    req1: Option<&rsi_request>,
    entries1: Option<&[rsi_path_entry]>,
    entry_count1: u32,
    metadata1: Option<&[rsi_key_metadata]>,
    metadata_count1: u32,
    r1: Result<Vec<u8>, Errno>,
    req2: Option<&rsi_request>,
    entries2: Option<&[rsi_path_entry]>,
    entry_count2: u32,
    metadata2: Option<&[rsi_key_metadata]>,
    metadata_count2: u32,
    r2: Result<Vec<u8>, Errno>,
)
    requires
        array_valid(entries1, entry_count1),
        array_valid(metadata1, metadata_count1),
        is_reply(
            r1,
            req1,
            asks_for(req1, abi.lookup) && op_known && lookup_accepted(
                entries1,
                entry_count1,
                metadata1,
                metadata_count1,
            ),
            asks_for(req1, abi.lookup) && (lookup_metadata_asks(
                entries1,
                entry_count1,
                metadata1,
                metadata_count1,
            ) || (op_known && lookup_accepted(entries1, entry_count1, metadata1, metadata_count1))),
            abi.ok,
            lookup_reply(entries1, entry_count1, metadata1, metadata_count1).bytes(),
        ),
        array_valid(entries2, entry_count2),
        array_valid(metadata2, metadata_count2),
        is_reply(
            r2,
            req2,
            asks_for(req2, abi.lookup) && op_known && lookup_accepted(
                entries2,
                entry_count2,
                metadata2,
                metadata_count2,
            ),
            asks_for(req2, abi.lookup) && (lookup_metadata_asks(
                entries2,
                entry_count2,
                metadata2,
                metadata_count2,
            ) || (op_known && lookup_accepted(entries2, entry_count2, metadata2, metadata_count2))),
            abi.ok,
            lookup_reply(entries2, entry_count2, metadata2, metadata_count2).bytes(),
        ),
        r1 is Ok,
        r2 is Ok,
        r1->Ok_0@ == r2->Ok_0@,
    ensures
        req1->0.request_id == req2->0.request_id,
        entry_count1 == entry_count2,
        metadata_count1 == metadata_count2,
        ({
            let p = entries1->0@;
            let q = entries2->0@;
            let u = metadata1->0@;
            let v = metadata2->0@;
            &&& forall|i: int|
                #![trigger p[i]]
                0 <= i < entry_count1 ==> {
                    &&& p[i].layer_len == q[i].layer_len
                    &&& forall|k: int| 0 <= k < p[i].layer_len
                        ==> #[trigger] p[i].layer->0@[k] == q[i].layer->0@[k]
                    &&& p[i].target_type == q[i].target_type
                    &&& p[i].target_guid == q[i].target_guid
                    &&& p[i].sequence == q[i].sequence
                }
            &&& forall|i: int|
                #![trigger u[i]]
                0 <= i < metadata_count1 ==> {
                    &&& u[i].guid == v[i].guid
                    &&& u[i].sd_len == v[i].sd_len
                    &&& forall|k: int| 0 <= k < u[i].sd_len
                        ==> #[trigger] u[i].sd->0@[k] == v[i].sd->0@[k]
                    &&& u[i].volatile_key == v[i].volatile_key
                    &&& u[i].symlink == v[i].symlink
                    &&& u[i].last_write_time == v[i].last_write_time
                }
        }),
{
    let a = lookup_reply(entries1, entry_count1, metadata1, metadata_count1);
    let b = lookup_reply(entries2, entry_count2, metadata2, metadata_count2);
    lemma_same_payload(req1->0, req2->0, abi.ok, a.bytes(), b.bytes(), r1->Ok_0@);
    array_fits(entries1, entry_count1);
    array_fits(entries2, entry_count2);
    array_fits(metadata1, metadata_count1);
    array_fits(metadata2, metadata_count2);
    replies_are_told_apart(a, b);
    lemma_same_path(entries1, entry_count1, entries2, entry_count2);
    lemma_same_metadata(metadata1, metadata_count1, metadata2, metadata_count2);
}

/// Two ENUM_CHILDREN replies with the same frame were made from the same arguments: no field of any
/// structure is left out of the frame.
pub proof fn enum_children_frame_tells_what_was_handed_over(
    abi: &RsiAbi,
    op_known: bool,
    req1: Option<&rsi_request>,
    children1: Option<&[rsi_child_entry]>,
    child_count1: u32,
    metadata1: Option<&[rsi_key_metadata]>,
    metadata_count1: u32,
    r1: Result<Vec<u8>, Errno>,
    req2: Option<&rsi_request>,
    children2: Option<&[rsi_child_entry]>,
    child_count2: u32,
    metadata2: Option<&[rsi_key_metadata]>,
    metadata_count2: u32,
    r2: Result<Vec<u8>, Errno>,
)
    requires
        array_valid(children1, child_count1),
        array_valid(metadata1, metadata_count1),
        is_reply(
            r1,
            req1,
            asks_for(req1, abi.enum_children) && op_known && enum_children_accepted(
                children1,
                child_count1,
                metadata1,
                metadata_count1,
            ),
            asks_for(req1, abi.enum_children) && (enum_children_metadata_asks(
                children1,
                child_count1,
                metadata1,
                metadata_count1,
            ) || (op_known && enum_children_accepted(children1, child_count1, metadata1,
                metadata_count1))),
            abi.ok,
            enum_children_reply(children1, child_count1, metadata1, metadata_count1).bytes(),
        ),
        array_valid(children2, child_count2),
        array_valid(metadata2, metadata_count2),
        is_reply(
            r2,
            req2,
            asks_for(req2, abi.enum_children) && op_known && enum_children_accepted(
                children2,
                child_count2,
                metadata2,
                metadata_count2,
            ),
            asks_for(req2, abi.enum_children) && (enum_children_metadata_asks(
                children2,
                child_count2,
                metadata2,
                metadata_count2,
            ) || (op_known && enum_children_accepted(children2, child_count2, metadata2,
                metadata_count2))),
            abi.ok,
            enum_children_reply(children2, child_count2, metadata2, metadata_count2).bytes(),
        ),
        r1 is Ok,
        r2 is Ok,
        r1->Ok_0@ == r2->Ok_0@,
    ensures
        req1->0.request_id == req2->0.request_id,
        child_count1 == child_count2,
        metadata_count1 == metadata_count2,
        ({
            let p = children1->0@;
            let q = children2->0@;
            let u = metadata1->0@;
            let v = metadata2->0@;
            &&& forall|i: int|
                #![trigger p[i]]
                0 <= i < child_count1 ==> {
                    &&& p[i].child_name_len == q[i].child_name_len
                    &&& forall|k: int| 0 <= k < p[i].child_name_len
                        ==> #[trigger] p[i].child_name->0@[k] == q[i].child_name->0@[k]
                    &&& p[i].entry_count == q[i].entry_count
                    &&& forall|j: int|
                        #![trigger p[i].entries->0@[j]]
                        0 <= j < p[i].entry_count ==> {
                            &&& p[i].entries->0@[j].layer_len == q[i].entries->0@[j].layer_len
                            &&& forall|k: int| 0 <= k < p[i].entries->0@[j].layer_len
                                ==> #[trigger] p[i].entries->0@[j].layer->0@[k] == q[i].entries->0@[j].layer->0@[k]
                            &&& p[i].entries->0@[j].target_type == q[i].entries->0@[j].target_type
                            &&& p[i].entries->0@[j].target_guid == q[i].entries->0@[j].target_guid
                            &&& p[i].entries->0@[j].sequence == q[i].entries->0@[j].sequence
                        }
                }
            &&& forall|i: int|
                #![trigger u[i]]
                0 <= i < metadata_count1 ==> {
                    &&& u[i].guid == v[i].guid
                    &&& u[i].sd_len == v[i].sd_len
                    &&& forall|k: int| 0 <= k < u[i].sd_len
                        ==> #[trigger] u[i].sd->0@[k] == v[i].sd->0@[k]
                    &&& u[i].volatile_key == v[i].volatile_key
                    &&& u[i].symlink == v[i].symlink
                    &&& u[i].last_write_time == v[i].last_write_time
                }
        }),
{
    let a = enum_children_reply(children1, child_count1, metadata1, metadata_count1);
    let b = enum_children_reply(children2, child_count2, metadata2, metadata_count2);
    lemma_same_payload(req1->0, req2->0, abi.ok, a.bytes(), b.bytes(), r1->Ok_0@);
    array_fits(children1, child_count1);
    array_fits(children2, child_count2);
    array_fits(metadata1, metadata_count1);
    array_fits(metadata2, metadata_count2);
    replies_are_told_apart(a, b);
    lemma_same_child(children1, child_count1, children2, child_count2);
    lemma_same_metadata(metadata1, metadata_count1, metadata2, metadata_count2);
}

/// Two QUERY_VALUES replies with the same frame were made from the same arguments: no field of any
/// structure is left out of the frame.
pub proof fn query_values_frame_tells_what_was_handed_over(
    abi: &RsiAbi,
    op_known: bool,
    req1: Option<&rsi_request>,
    entries1: Option<&[rsi_value_entry]>,
    entry_count1: u32,
    blankets1: Option<&[rsi_blanket_entry]>,
    blanket_count1: u32,
    r1: Result<Vec<u8>, Errno>,
    req2: Option<&rsi_request>,
    entries2: Option<&[rsi_value_entry]>,
    entry_count2: u32,
    blankets2: Option<&[rsi_blanket_entry]>,
    blanket_count2: u32,
    r2: Result<Vec<u8>, Errno>,
)
    requires
        array_valid(entries1, entry_count1),
        array_valid(blankets1, blanket_count1),
        is_reply(
            r1,
            req1,
            asks_for(req1, abi.query_values) && op_known && array_accepted(entries1, entry_count1)
                && array_accepted(blankets1, blanket_count1),
            asks_for(req1, abi.query_values) && op_known && array_accepted(entries1, entry_count1)
                && array_accepted(blankets1, blanket_count1),
            abi.ok,
            query_values_reply(entries1, entry_count1, blankets1, blanket_count1).bytes(),
        ),
        array_valid(entries2, entry_count2),
        array_valid(blankets2, blanket_count2),
        is_reply(
            r2,
            req2,
            asks_for(req2, abi.query_values) && op_known && array_accepted(entries2, entry_count2)
                && array_accepted(blankets2, blanket_count2),
            asks_for(req2, abi.query_values) && op_known && array_accepted(entries2, entry_count2)
                && array_accepted(blankets2, blanket_count2),
            abi.ok,
            query_values_reply(entries2, entry_count2, blankets2, blanket_count2).bytes(),
        ),
        r1 is Ok,
        r2 is Ok,
        r1->Ok_0@ == r2->Ok_0@,
    ensures
        req1->0.request_id == req2->0.request_id,
        entry_count1 == entry_count2,
        blanket_count1 == blanket_count2,
        ({
            let p = entries1->0@;
            let q = entries2->0@;
            let u = blankets1->0@;
            let v = blankets2->0@;
            &&& forall|i: int|
                #![trigger p[i]]
                0 <= i < entry_count1 ==> {
                    &&& p[i].value_name_len == q[i].value_name_len
                    &&& forall|k: int| 0 <= k < p[i].value_name_len
                        ==> #[trigger] p[i].value_name->0@[k] == q[i].value_name->0@[k]
                    &&& p[i].layer_name_len == q[i].layer_name_len
                    &&& forall|k: int| 0 <= k < p[i].layer_name_len
                        ==> #[trigger] p[i].layer_name->0@[k] == q[i].layer_name->0@[k]
                    &&& p[i].value_type == q[i].value_type
                    &&& p[i].data_len == q[i].data_len
                    &&& forall|k: int| 0 <= k < p[i].data_len
                        ==> #[trigger] p[i].data->0@[k] == q[i].data->0@[k]
                    &&& p[i].sequence == q[i].sequence
                }
            &&& forall|i: int|
                #![trigger u[i]]
                0 <= i < blanket_count1 ==> {
                    &&& u[i].layer_name_len == v[i].layer_name_len
                    &&& forall|k: int| 0 <= k < u[i].layer_name_len
                        ==> #[trigger] u[i].layer_name->0@[k] == v[i].layer_name->0@[k]
                    &&& u[i].sequence == v[i].sequence
                }
        }),
{
    let a = query_values_reply(entries1, entry_count1, blankets1, blanket_count1);
    let b = query_values_reply(entries2, entry_count2, blankets2, blanket_count2);
    lemma_same_payload(req1->0, req2->0, abi.ok, a.bytes(), b.bytes(), r1->Ok_0@);
    array_fits(entries1, entry_count1);
    array_fits(entries2, entry_count2);
    array_fits(blankets1, blanket_count1);
    array_fits(blankets2, blanket_count2);
    replies_are_told_apart(a, b);
    lemma_same_value(entries1, entry_count1, entries2, entry_count2);
    lemma_same_blanket(blankets1, blanket_count1, blankets2, blanket_count2);
}

/// The frame that answers a READ_KEY holds every argument, and nothing else. It is
/// refused as too long only where it is.
pub proof fn read_key_frame_holds_what_was_handed_over(
    abi: &RsiAbi,
    op_known: bool,
    req: Option<&rsi_request>,
    name: Option<&[u8]>,
    name_len: u32,
    parent_guid: Option<&Guid>,
    sd: Option<&[u8]>,
    sd_len: u32,
    volatile_key: u8,
    symlink: u8,
    last_write_time: u64,
    r: Result<Vec<u8>, Errno>,
)
    requires
        c_array_valid(name, name_len),
        c_array_valid(sd, sd_len),
        is_reply(
            r,
            req,
            asks_for(req, abi.read_key) && op_known && read_key_accepted(
                name,
                name_len,
                parent_guid,
                sd,
                sd_len,
                volatile_key,
                symlink,
            ),
            asks_for(req, abi.read_key) && op_known && read_key_accepted(
                name,
                name_len,
                parent_guid,
                sd,
                sd_len,
                volatile_key,
                symlink,
            ),
            abi.ok,
            read_key_reply(
                name,
                name_len,
                *parent_guid->0,
                sd,
                sd_len,
                volatile_key,
                symlink,
                last_write_time,
            ).bytes(),
        ),
    ensures
        r matches Ok(frame) ==> {
            let b = frame@;
            let n = name_len as int;
            let d = sd_len as int;
            &&& head_at(b, req, abi.ok)
            &&& field_at(b, 18, name, name_len)
            &&& parent_guid is Some
            &&& guid_at(b, 22 + n, *parent_guid->0)
            &&& field_at(b, 38 + n, sd, sd_len)
            &&& b[42 + n + d] == volatile_key
            &&& b[43 + n + d] == symlink
            &&& u64_at(b, 44 + n + d, last_write_time as int)
            &&& b.len() == 52 + n + d
        },
        r == Err::<Vec<u8>, Errno>(Errno::EOVERFLOW) ==> 52 + name_len + sd_len > u32::MAX,
{
    broadcast use lemma_le_bytes_len;

    if r is Ok || r == Err::<Vec<u8>, Errno>(Errno::EOVERFLOW) {
        lemma_field_len(name, name_len);
        lemma_field_len(sd, sd_len);
    }
    if let Ok(frame) = r {
        let b = frame@;
        let n = name_len as int;
        let d = sd_len as int;
        let guid = *parent_guid->0;
        let f1 = lpf_bytes(c_array_view(name, name_len));
        let f2 = lpf_bytes(c_array_view(sd, sd_len));
        let time = le_bytes(last_write_time as nat, 8);
        let payload = read_key_reply(
            name,
            name_len,
            guid,
            sd,
            sd_len,
            volatile_key,
            symlink,
            last_write_time,
        ).bytes();
        lemma_head(b, req->0, abi.ok, payload);
        lemma_split(b, 18, f1 + guid@ + f2 + seq![volatile_key] + seq![symlink], time);
        lemma_split(b, 18, f1 + guid@ + f2 + seq![volatile_key], seq![symlink]);
        lemma_split(b, 18, f1 + guid@ + f2, seq![volatile_key]);
        lemma_split(b, 18, f1 + guid@, f2);
        lemma_split(b, 18, f1, guid@);
        lemma_field(b, 18, name, name_len);
        lemma_guid(b, 22 + n, guid);
        lemma_field(b, 38 + n, sd, sd_len);
        lemma_byte(b, 42 + n + d, volatile_key);
        lemma_byte(b, 43 + n + d, symlink);
        lemma_u64(b, 44 + n + d, last_write_time);
    }
}

/// Two READ_KEY replies with the same frame were made from the same arguments.
pub proof fn read_key_frame_tells_what_was_handed_over(
    abi: &RsiAbi,
    op_known: bool,
    req1: Option<&rsi_request>,
    name1: Option<&[u8]>,
    name_len1: u32,
    parent_guid1: Option<&Guid>,
    sd1: Option<&[u8]>,
    sd_len1: u32,
    volatile_key1: u8,
    symlink1: u8,
    last_write_time1: u64,
    r1: Result<Vec<u8>, Errno>,
    req2: Option<&rsi_request>,
    name2: Option<&[u8]>,
    name_len2: u32,
    parent_guid2: Option<&Guid>,
    sd2: Option<&[u8]>,
    sd_len2: u32,
    volatile_key2: u8,
    symlink2: u8,
    last_write_time2: u64,
    r2: Result<Vec<u8>, Errno>,
)
    requires
        c_array_valid(name1, name_len1),
        c_array_valid(sd1, sd_len1),
        is_reply(
            r1,
            req1,
            asks_for(req1, abi.read_key) && op_known && read_key_accepted(
                name1,
                name_len1,
                parent_guid1,
                sd1,
                sd_len1,
                volatile_key1,
                symlink1,
            ),
            asks_for(req1, abi.read_key) && op_known && read_key_accepted(
                name1,
                name_len1,
                parent_guid1,
                sd1,
                sd_len1,
                volatile_key1,
                symlink1,
            ),
            abi.ok,
            read_key_reply(
                name1,
                name_len1,
                *parent_guid1->0,
                sd1,
                sd_len1,
                volatile_key1,
                symlink1,
                last_write_time1,
            ).bytes(),
        ),
        c_array_valid(name2, name_len2),
        c_array_valid(sd2, sd_len2),
        is_reply(
            r2,
            req2,
            asks_for(req2, abi.read_key) && op_known && read_key_accepted(
                name2,
                name_len2,
                parent_guid2,
                sd2,
                sd_len2,
                volatile_key2,
                symlink2,
            ),
            asks_for(req2, abi.read_key) && op_known && read_key_accepted(
                name2,
                name_len2,
                parent_guid2,
                sd2,
                sd_len2,
                volatile_key2,
                symlink2,
            ),
            abi.ok,
            read_key_reply(
                name2,
                name_len2,
                *parent_guid2->0,
                sd2,
                sd_len2,
                volatile_key2,
                symlink2,
                last_write_time2,
            ).bytes(),
        ),
        r1 is Ok,
        r2 is Ok,
        r1->Ok_0@ == r2->Ok_0@,
    ensures
        req1->0.request_id == req2->0.request_id,
        name_len1 == name_len2,
        forall|k: int| 0 <= k < name_len1 ==> #[trigger] name1->0@[k] == name2->0@[k],
        *parent_guid1->0 == *parent_guid2->0,
        sd_len1 == sd_len2,
        forall|k: int| 0 <= k < sd_len1 ==> #[trigger] sd1->0@[k] == sd2->0@[k],
        volatile_key1 == volatile_key2,
        symlink1 == symlink2,
        last_write_time1 == last_write_time2,
{
    let a = read_key_reply(
        name1,
        name_len1,
        *parent_guid1->0,
        sd1,
        sd_len1,
        volatile_key1,
        symlink1,
        last_write_time1,
    );
    let b = read_key_reply(
        name2,
        name_len2,
        *parent_guid2->0,
        sd2,
        sd_len2,
        volatile_key2,
        symlink2,
        last_write_time2,
    );
    lemma_same_payload(req1->0, req2->0, abi.ok, a.bytes(), b.bytes(), r1->Ok_0@);
    replies_are_told_apart(a, b);
    lemma_same_field(name1, name_len1, name2, name_len2);
    lemma_same_field(sd1, sd_len1, sd2, sd_len2);
}

/// The frame that answers a DELETE_LAYER holds the bytes of the orphaned GUIDs as they
/// were handed over, and nothing else. It is refused as too long only where it is.
pub proof fn delete_layer_frame_holds_what_was_handed_over(
    abi: &RsiAbi,
    op_known: bool,
    req: Option<&rsi_request>,
    orphaned_guids: Option<&[u8]>,
    orphaned_count: u32,
    r: Result<Vec<u8>, Errno>,
)
    requires
        orphans_valid(orphaned_guids, orphaned_count),
        16 * orphaned_count <= usize::MAX,
        is_reply(
            r,
            req,
            asks_for(req, abi.delete_layer) && op_known && orphans_accepted(
                orphaned_guids,
                orphaned_count,
            ),
            asks_for(req, abi.delete_layer) && (if orphaned_count == 0 {
                op_known
            } else {
                orphaned_guids is Some
            }),
            abi.ok,
            (DeleteLayerReply {
                orphaned: guid_chunks(orphans_view(orphaned_guids, orphaned_count)),
            }).bytes(),
        ),
    ensures
        r matches Ok(frame) ==> {
            let b = frame@;
            &&& head_at(b, req, abi.ok)
            &&& u32_at(b, 18, orphaned_count as int)
            &&& orphaned_count > 0 ==> orphaned_guids is Some
            &&& forall|k: int|
                0 <= k < 16 * orphaned_count ==> b[22 + k] == #[trigger] orphaned_guids->0@[k]
            &&& b.len() == 22 + 16 * orphaned_count
        },
        r == Err::<Vec<u8>, Errno>(Errno::EOVERFLOW) ==> 22 + 16 * orphaned_count > u32::MAX,
{
    broadcast use lemma_le_bytes_len;

    let bytes = orphans_view(orphaned_guids, orphaned_count);
    let chunks = guid_chunks(bytes);
    if r is Ok || r == Err::<Vec<u8>, Errno>(Errno::EOVERFLOW) {
        assert(bytes.len() == 16 * orphaned_count);
        assert(chunks.len() == orphaned_count);
        lemma_chunks_concat(bytes);
    }
    if let Ok(frame) = r {
        let b = frame@;
        lemma_head(b, req->0, abi.ok, block_bytes(chunks));
        lemma_split(b, 18, le_bytes(chunks.len(), 4), concat(chunks));
        lemma_u32(b, 18, chunks.len());
        let run = b.subrange(22, 22 + bytes.len() as int);
        assert forall|k: int| 0 <= k < 16 * orphaned_count implies b[22 + k]
            == #[trigger] orphaned_guids->0@[k] by {
            assert(run[k] == bytes[k]);
            assert(run[k] == b[22 + k]);
        }
    }
}

/// A status alone answers every request whose op-code is known. A failure may always be
/// reported, whatever the table says of the kind of reply; success exactly where the table
/// says that it is reported by the status alone; and a number that is no status never. All
/// else is refused with `EINVAL`, and the frame is the header and that status.
pub proof fn status_answers_what_it_may(
    req: Option<&rsi_request>,
    status: u32,
    op: OpInfo,
    meaning: StatusInfo,
    r: Result<[u8; 18], Errno>,
)
    requires
        match (r, req) {
            (Ok(frame), Some(q)) => {
                &&& op.known && status_reply_ok(op, meaning)
                &&& frame@ == response_frame(
                    q.request_id,
                    response_op(q.op_code),
                    status,
                    Seq::empty(),
                )
            },
            (Ok(_), None) => false,
            (Err(e), _) => {
                &&& e == Errno::EINVAL
                &&& req is None || !op.known || !status_reply_ok(op, meaning)
            },
        },
    ensures
        req is Some && op.known && meaning is Failure ==> r is Ok,
        req is Some && op.known && meaning is Success ==> (r is Ok
            <==> op.status_only == Some(true)),
        req is None || !op.known || meaning is Unknown ==> r is Err,
        r is Err ==> r == Err::<[u8; 18], Errno>(Errno::EINVAL),
        r matches Ok(frame) ==> head_at(frame@, req, status) && frame@.len() == 18,
{
    if let Ok(frame) = r {
        lemma_head(frame@, req->0, status, Seq::empty());
    }
}

/// Of a status-only reply: a failure is always in order, success exactly where the table
/// says that the status alone reports it, and a number that is no status never.
pub proof fn failure_may_always_be_reported(op: OpInfo)
    ensures
        status_reply_ok(op, StatusInfo::Failure),
        status_reply_ok(op, StatusInfo::Success) <==> op.status_only == Some(true),
        !status_reply_ok(op, StatusInfo::Unknown),
{
}

} // verus!
