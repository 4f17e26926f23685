//! What holds of the library as a whole.
use vstd::prelude::*;

use crate::c_array::c_array_valid;
use crate::completeness::{
    child_targets, lemma_child_targets_step, metadata_complete, metadata_guids, path_targets,
};
use crate::entries::{
    array_fits, array_valid, rsi_blanket_entry, rsi_child_entry, rsi_key_metadata, rsi_path_entry,
    rsi_value_entry,
};
use crate::frame::{lemma_frame_lengths, response_frame, FrameWriter};
use crate::guids::{is_nil, lemma_rearranged, unique_nonzero, Guid};
use crate::little_endian::{
    le_bytes, le_bytes_round_trip, le_value, lemma_le_bounds, lemma_le_bytes_len,
};
use crate::records::{
    ChildEntry, DeleteLayerReply, EnumChildrenReply, KeyMetadata, LookupReply, PathEntry,
    QueryValuesReply, ReadKeyReply, WireRecord,
};
use crate::response::{
    enum_children_reply, guid_chunks, lookup_reply, orphans_valid, orphans_view, query_values_reply,
    read_key_reply,
};
use crate::vocabulary::{
    response_op, RSI_MIN_RESPONSE_SIZE, RSI_PATH_TARGET_GUID, RSI_PATH_TARGET_HIDDEN,
    RSI_RESPONSE_BIT,
};

verus! {

/// What the kernel demands of the framing of a response before it looks at anything
/// else: it is long enough, its length field is its length, and it answers the request.
pub open spec fn well_framed(frame: Seq<u8>, request_id: u64, op_code: u16) -> bool {
    &&& frame.len() >= RSI_MIN_RESPONSE_SIZE
    &&& le_value(frame.subrange(0, 4)) == frame.len()
    &&& le_value(frame.subrange(4, 12)) == request_id
    &&& le_value(frame.subrange(12, 14)) == response_op(op_code)
}

/// The status of a response.
pub open spec fn frame_status(frame: Seq<u8>) -> nat {
    le_value(frame.subrange(14, 18))
}

/// The payload of a response.
pub open spec fn frame_payload(frame: Seq<u8>) -> Seq<u8> {
    frame.skip(18)
}

/// Every response that is built passes the kernel's framing checks, and carries the
/// status and the payload it was built from.
pub proof fn response_is_well_framed(
    request_id: u64,
    op_code: u16,
    status: u32,
    payload: Seq<u8>,
)
    requires
        18 + payload.len() <= u32::MAX,
    ensures
        ({
            let frame = response_frame(request_id, response_op(op_code), status, payload);
            &&& well_framed(frame, request_id, op_code)
            &&& frame_status(frame) == status
            &&& frame_payload(frame) == payload
        }),
{
    broadcast use lemma_le_bytes_len;

    let resp_op = response_op(op_code);
    let frame = response_frame(request_id, resp_op, status, payload);
    let total = (18 + payload.len()) as nat;
    lemma_frame_lengths(request_id, resp_op, status, payload);
    lemma_le_bounds();
    le_bytes_round_trip(total, 4);
    le_bytes_round_trip(request_id as nat, 8);
    le_bytes_round_trip(resp_op as nat, 2);
    le_bytes_round_trip(status as nat, 4);
    assert(frame.subrange(0, 4) =~= le_bytes(total, 4));
    assert(frame.subrange(4, 12) =~= le_bytes(request_id as nat, 8));
    assert(frame.subrange(12, 14) =~= le_bytes(resp_op as nat, 2));
    assert(frame.subrange(14, 18) =~= le_bytes(status as nat, 4));
    assert(frame.skip(18) =~= payload);
}

/// The op-code of a response has the response bit, and names one request op-code: two
/// requests without that bit are never answered under the same op-code.
pub proof fn response_op_names_the_request(a: u16, b: u16)
    requires
        a < RSI_RESPONSE_BIT,
        b < RSI_RESPONSE_BIT,
    ensures
        response_op(a) >= RSI_RESPONSE_BIT,
        response_op(a) == response_op(b) ==> a == b,
{
    assert(a | 0x8000u16 >= 0x8000u16) by (bit_vector);
    assert(a < 0x8000u16 && b < 0x8000u16 && (a | 0x8000u16) == (b | 0x8000u16) ==> a == b)
        by (bit_vector);
}

/// A reply that was built is read back whole: nothing is lost and nothing is left over.
pub proof fn reply_is_read_back<R: WireRecord>(
    request_id: u64,
    op_code: u16,
    status: u32,
    reply: R,
)
    requires
        reply.fits(),
    ensures
        R::read(
            frame_payload(response_frame(request_id, response_op(op_code), status, reply.bytes())),
        ) == Some((reply, Seq::<u8>::empty())),
{
    lemma_frame_lengths(request_id, response_op(op_code), status, reply.bytes());
    let frame = response_frame(request_id, response_op(op_code), status, reply.bytes());
    assert(frame_payload(frame) =~= reply.bytes() + Seq::<u8>::empty());
    reply.read_back(Seq::empty());
}

/// Replies that differ have payloads that differ.
pub proof fn replies_are_told_apart<R: WireRecord>(a: R, b: R)
    requires
        a.fits(),
        b.fits(),
        a.bytes() == b.bytes(),
    ensures
        a == b,
{
    a.read_back(Seq::empty());
    b.read_back(Seq::empty());
}

/// A LOOKUP reply is read back as the entries and the metadata it was made from.
pub proof fn lookup_reply_is_read_back(
    request_id: u64,
    op_code: u16,
    ok: u32,
    entries: Option<&[rsi_path_entry]>,
    entry_count: u32,
    metadata: Option<&[rsi_key_metadata]>,
    metadata_count: u32,
)
    requires
        array_valid(entries, entry_count),
        array_valid(metadata, metadata_count),
    ensures
        ({
            let reply = lookup_reply(entries, entry_count, metadata, metadata_count);
            LookupReply::read(
                frame_payload(response_frame(request_id, response_op(op_code), ok, reply.bytes())),
            ) == Some((reply, Seq::<u8>::empty()))
        }),
{
    array_fits(entries, entry_count);
    array_fits(metadata, metadata_count);
    reply_is_read_back(
        request_id,
        op_code,
        ok,
        lookup_reply(entries, entry_count, metadata, metadata_count),
    );
}

/// An ENUM_CHILDREN reply is read back as the children and the metadata it was made
/// from.
pub proof fn enum_children_reply_is_read_back(
    request_id: u64,
    op_code: u16,
    ok: u32,
    children: Option<&[rsi_child_entry]>,
    child_count: u32,
    metadata: Option<&[rsi_key_metadata]>,
    metadata_count: u32,
)
    requires
        array_valid(children, child_count),
        array_valid(metadata, metadata_count),
    ensures
        ({
            let reply = enum_children_reply(children, child_count, metadata, metadata_count);
            EnumChildrenReply::read(
                frame_payload(response_frame(request_id, response_op(op_code), ok, reply.bytes())),
            ) == Some((reply, Seq::<u8>::empty()))
        }),
{
    array_fits(children, child_count);
    array_fits(metadata, metadata_count);
    reply_is_read_back(
        request_id,
        op_code,
        ok,
        enum_children_reply(children, child_count, metadata, metadata_count),
    );
}

/// A READ_KEY reply is read back as the fields it was made from.
pub proof fn read_key_reply_is_read_back(
    request_id: u64,
    op_code: u16,
    ok: u32,
    name: Option<&[u8]>,
    name_len: u32,
    parent_guid: Guid,
    sd: Option<&[u8]>,
    sd_len: u32,
    volatile_key: u8,
    symlink: u8,
    last_write_time: u64,
)
    requires
        c_array_valid(name, name_len),
        c_array_valid(sd, sd_len),
    ensures
        ({
            let reply = read_key_reply(
                name,
                name_len,
                parent_guid,
                sd,
                sd_len,
                volatile_key,
                symlink,
                last_write_time,
            );
            ReadKeyReply::read(
                frame_payload(response_frame(request_id, response_op(op_code), ok, reply.bytes())),
            ) == Some((reply, Seq::<u8>::empty()))
        }),
{
    reply_is_read_back(
        request_id,
        op_code,
        ok,
        read_key_reply(
            name,
            name_len,
            parent_guid,
            sd,
            sd_len,
            volatile_key,
            symlink,
            last_write_time,
        ),
    );
}

/// A DELETE_LAYER reply is read back as the orphaned keys it was made from.
pub proof fn delete_layer_reply_is_read_back(
    request_id: u64,
    op_code: u16,
    ok: u32,
    orphaned_guids: Option<&[u8]>,
    orphaned_count: u32,
)
    requires
        orphans_valid(orphaned_guids, orphaned_count),
        16 * orphaned_count <= usize::MAX,
    ensures
        ({
            let reply = DeleteLayerReply {
                orphaned: guid_chunks(orphans_view(orphaned_guids, orphaned_count)),
            };
            DeleteLayerReply::read(
                frame_payload(response_frame(request_id, response_op(op_code), ok, reply.bytes())),
            ) == Some((reply, Seq::<u8>::empty()))
        }),
{
    reply_is_read_back(
        request_id,
        op_code,
        ok,
        DeleteLayerReply { orphaned: guid_chunks(orphans_view(orphaned_guids, orphaned_count)) },
    );
}

/// A QUERY_VALUES reply is read back as the values and the tombstones it was made from.
pub proof fn query_values_reply_is_read_back(
    request_id: u64,
    op_code: u16,
    ok: u32,
    entries: Option<&[rsi_value_entry]>,
    entry_count: u32,
    blankets: Option<&[rsi_blanket_entry]>,
    blanket_count: u32,
)
    requires
        array_valid(entries, entry_count),
        array_valid(blankets, blanket_count),
    ensures
        ({
            let reply = query_values_reply(entries, entry_count, blankets, blanket_count);
            QueryValuesReply::read(
                frame_payload(response_frame(request_id, response_op(op_code), ok, reply.bytes())),
            ) == Some((reply, Seq::<u8>::empty()))
        }),
{
    array_fits(entries, entry_count);
    array_fits(blankets, blanket_count);
    reply_is_read_back(
        request_id,
        op_code,
        ok,
        query_values_reply(entries, entry_count, blankets, blanket_count),
    );
}

/// Exactly one record is about `guid`.
pub open spec fn one_record(guid: Guid, metadata: Seq<KeyMetadata>) -> bool {
    &&& exists|j: int| 0 <= j < metadata.len() && (#[trigger] metadata[j]).guid == guid
    &&& forall|j: int, k: int|
        0 <= j < metadata.len() && 0 <= k < metadata.len() && (#[trigger] metadata[j]).guid == guid
            && (#[trigger] metadata[k]).guid == guid ==> j == k
}

proof fn lemma_one_record(targets: Set<Guid>, guid: Guid, metadata: Seq<KeyMetadata>)
    requires
        metadata_complete(targets, metadata),
        targets.contains(guid),
    ensures
        !is_nil(guid),
        one_record(guid, metadata),
{
    let guids = metadata_guids(metadata);
    assert(guids.to_set().contains(guid));
    let j = choose|j: int| 0 <= j < guids.len() && guids[j] == guid;
    assert(metadata[j].guid == guid);
    assert forall|j: int, k: int|
        0 <= j < metadata.len() && 0 <= k < metadata.len() && (#[trigger] metadata[j]).guid == guid
            && (#[trigger] metadata[k]).guid == guid implies j == k by {
        assert(guids[j] == guids[k]);
    }
}

/// Where the metadata of a lookup is complete, a key that an entry names has exactly one
/// record.
pub proof fn named_key_has_one_record(entries: Seq<PathEntry>, metadata: Seq<KeyMetadata>, i: int)
    requires
        metadata_complete(path_targets(entries), metadata),
        0 <= i < entries.len(),
        entries[i].target_type == RSI_PATH_TARGET_GUID,
    ensures
        !is_nil(entries[i].target_guid),
        one_record(entries[i].target_guid, metadata),
{
    assert(path_targets(entries).contains(entries[i].target_guid));
    lemma_one_record(path_targets(entries), entries[i].target_guid, metadata);
}

/// Where the metadata of an enumeration is complete, a key that an entry of a child names
/// has exactly one record.
pub proof fn enumerated_key_has_one_record(
    children: Seq<ChildEntry>,
    metadata: Seq<KeyMetadata>,
    c: int,
    i: int,
)
    requires
        metadata_complete(child_targets(children), metadata),
        0 <= c < children.len(),
        0 <= i < children[c].entries.len(),
        children[c].entries[i].target_type == RSI_PATH_TARGET_GUID,
    ensures
        !is_nil(children[c].entries[i].target_guid),
        one_record(children[c].entries[i].target_guid, metadata),
{
    let guid = children[c].entries[i].target_guid;
    assert(path_targets(children[c].entries).contains(guid));
    assert(child_targets(children).contains(guid));
    lemma_one_record(child_targets(children), guid, metadata);
}

/// Where the metadata of a lookup is complete, every record is about a key that some
/// entry names.
pub proof fn record_is_about_a_named_key(
    entries: Seq<PathEntry>,
    metadata: Seq<KeyMetadata>,
    j: int,
)
    requires
        metadata_complete(path_targets(entries), metadata),
        0 <= j < metadata.len(),
    ensures
        exists|i: int|
            0 <= i < entries.len() && (#[trigger] entries[i]).target_type == RSI_PATH_TARGET_GUID
                && entries[i].target_guid == metadata[j].guid,
{
    let guids = metadata_guids(metadata);
    assert(guids[j] == metadata[j].guid);
    assert(guids.to_set().contains(metadata[j].guid));
    assert(path_targets(entries).contains(metadata[j].guid));
}

/// Where the metadata of an enumeration is complete, every record is about a key that
/// some entry of some child names.
pub proof fn record_is_about_an_enumerated_key(
    children: Seq<ChildEntry>,
    metadata: Seq<KeyMetadata>,
    j: int,
)
    requires
        metadata_complete(child_targets(children), metadata),
        0 <= j < metadata.len(),
    ensures
        exists|c: int, i: int|
            0 <= c < children.len() && 0 <= i < children[c].entries.len() && (
            #[trigger] children[c].entries[i]).target_type == RSI_PATH_TARGET_GUID
                && children[c].entries[i].target_guid == metadata[j].guid,
{
    let guid = metadata[j].guid;
    let guids = metadata_guids(metadata);
    assert(guids[j] == guid);
    assert(guids.to_set().contains(guid));
    assert(child_targets(children).contains(guid));
    let c = choose|c: int|
        0 <= c < children.len() && path_targets((#[trigger] children[c].entries)).contains(guid);
    let entries = children[c].entries;
    let i = choose|i: int|
        0 <= i < entries.len() && (#[trigger] entries[i]).target_type == RSI_PATH_TARGET_GUID
            && entries[i].target_guid == guid;
    assert(children[c].entries[i].target_guid == guid);
}

/// A child that every layer hides names no key, and the reply has no metadata then.
pub proof fn hidden_child_has_no_metadata(entries: Seq<PathEntry>, metadata: Seq<KeyMetadata>)
    requires
        forall|i: int|
            0 <= i < entries.len() ==> (#[trigger] entries[i]).target_type
                == RSI_PATH_TARGET_HIDDEN,
    ensures
        path_targets(entries) == Set::<Guid>::empty(),
        metadata_complete(path_targets(entries), metadata) <==> metadata.len() == 0,
{
    assert(path_targets(entries) =~= Set::<Guid>::empty());
    let guids = metadata_guids(metadata);
    if metadata.len() > 0 {
        assert(guids.contains(guids[0]));
        assert(guids.to_set().contains(guids[0]));
    } else {
        assert(guids.to_set() =~= Set::<Guid>::empty());
    }
}

/// The order of the metadata is free: rearranging it changes nothing about whether it
/// is complete.
pub proof fn metadata_order_is_free(
    targets: Set<Guid>,
    a: Seq<KeyMetadata>,
    b: Seq<KeyMetadata>,
)
    requires
        metadata_guids(a).to_multiset() == metadata_guids(b).to_multiset(),
    ensures
        metadata_complete(targets, a) == metadata_complete(targets, b),
{
    let x = metadata_guids(a);
    let y = metadata_guids(b);
    lemma_rearranged(x, y);
    if unique_nonzero(x) {
        lemma_same_nonzero(x, y);
    }
    if unique_nonzero(y) {
        lemma_same_nonzero(y, x);
    }
}

proof fn lemma_same_nonzero(x: Seq<Guid>, y: Seq<Guid>)
    requires
        x.to_set() == y.to_set(),
        forall|i: int| 0 <= i < x.len() ==> !is_nil(#[trigger] x[i]),
    ensures
        forall|i: int| 0 <= i < y.len() ==> !is_nil(#[trigger] y[i]),
{
    assert forall|i: int| 0 <= i < y.len() implies !is_nil(#[trigger] y[i]) by {
        assert(y.to_set().contains(y[i]));
        assert(x.contains(y[i]));
        let k = choose|k: int| 0 <= k < x.len() && x[k] == y[i];
        assert(!is_nil(x[k]));
    }
}

/// The path entries of all children, in a row.
pub open spec fn entries_in_a_row(children: Seq<ChildEntry>) -> Seq<PathEntry>
    decreases children.len(),
{
    if children.len() == 0 {
        Seq::empty()
    } else {
        entries_in_a_row(children.drop_last()) + children.last().entries
    }
}

proof fn lemma_targets_of_both(a: Seq<PathEntry>, b: Seq<PathEntry>)
    ensures
        path_targets(a + b) == path_targets(a).union(path_targets(b)),
{
    let both = a + b;
    assert forall|g: Guid| path_targets(both).contains(g) implies path_targets(a).contains(g)
        || path_targets(b).contains(g) by {
        let k = choose|k: int|
            0 <= k < both.len() && (#[trigger] both[k]).target_type == RSI_PATH_TARGET_GUID
                && both[k].target_guid == g;
        if k < a.len() {
            assert(a[k] == both[k]);
        } else {
            assert(b[k - a.len()] == both[k]);
        }
    }
    assert forall|g: Guid| path_targets(a).contains(g) implies path_targets(both).contains(g) by {
        let k = choose|k: int|
            0 <= k < a.len() && (#[trigger] a[k]).target_type == RSI_PATH_TARGET_GUID
                && a[k].target_guid == g;
        assert(both[k] == a[k]);
    }
    assert forall|g: Guid| path_targets(b).contains(g) implies path_targets(both).contains(g) by {
        let k = choose|k: int|
            0 <= k < b.len() && (#[trigger] b[k]).target_type == RSI_PATH_TARGET_GUID
                && b[k].target_guid == g;
        assert(both[k + a.len()] == b[k]);
    }
    assert(path_targets(both) =~= path_targets(a).union(path_targets(b)));
}

/// An enumeration names the keys that a lookup with the entries of all its children, in a
/// row, names.
pub proof fn an_enumeration_is_a_lookup(children: Seq<ChildEntry>)
    ensures
        child_targets(children) == path_targets(entries_in_a_row(children)),
    decreases children.len(),
{
    if children.len() == 0 {
        assert(child_targets(children) =~= path_targets(entries_in_a_row(children)));
    } else {
        let n = children.len() - 1;
        let fewer = children.drop_last();
        an_enumeration_is_a_lookup(fewer);
        lemma_targets_of_both(entries_in_a_row(fewer), children.last().entries);
        lemma_child_targets_step(children, n);
        assert(children.take(n) =~= fewer);
        assert(children.take(n + 1) =~= children);
    }
}

/// Bytes taken in one after the other are the same as bytes taken in at once, and a
/// writer that has run out of memory never recovers.
pub proof fn appending_composes(
    w0: FrameWriter,
    w1: FrameWriter,
    w2: FrameWriter,
    a: Seq<u8>,
    b: Seq<u8>,
)
    requires
        w1.appended(w0, a),
        w2.appended(w1, b),
    ensures
        w2.appended(w0, a + b),
        w0.oom ==> w2.oom,
        w1.oom ==> w2.oom && w2.buf@ == w1.buf@,
{
    assert(!w2.oom ==> w2.buf@ =~= w0.buf@ + (a + b));
}

} // verus!
