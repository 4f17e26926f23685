//! What the words of the contracts mean, said of plain values.
//!
//! Contracts speak of arrays that are there, of fields that are handed out, of lists that
//! are in order. The laws of this module say what that comes to for every value.
use vstd::prelude::*;

use crate::c_array::{c_array_present, c_array_valid, c_array_view};
use crate::entries::{
    array_valid, bool_ok, path_target_ok, rsi_blanket_entry, rsi_child_entry, rsi_key_metadata,
    rsi_path_entry, rsi_value_entry, CRecord,
};
use crate::errno::Errno;
use crate::frame::FrameWriter;
use crate::guids::{guid_le, is_nil, lex_le, ordered_set, unique_nonzero, Guid};
use crate::request::{decoded, flag, is_field, RsiTransactionMode};
use crate::rules::nil_is_all_zero;
use crate::source::{
    awaited, is_registration, register_next, rsi_hive, RegisterAction, RegisterEvent, RegisterState,
    Registration,
};
use crate::vocabulary::response_op;

verus! {

/// An array is there unless it is NULL and counted; it is good where it has as many
/// elements as are counted; and its elements are the first ones behind its pointer, as many
/// as are counted.
pub proof fn array_is_what_is_counted<T>(ptr: Option<&[T]>, count: u32)
    ensures
        c_array_present(ptr, count) <==> count == 0 || ptr is Some,
        c_array_valid(ptr, count) <==> ptr is None || ptr->0@.len() >= count,
        c_array_valid(ptr, count) && c_array_present(ptr, count) ==> {
            &&& c_array_view(ptr, count).len() == count
            &&& forall|i: int|
                0 <= i < count ==> #[trigger] c_array_view(ptr, count)[i] == ptr->0@[i]
        },
{
}

/// An array of structures is good where its pointer is, and so is every structure that is
/// counted.
pub proof fn array_of_structures_is_good<T: CRecord>(ptr: Option<&[T]>, count: u32)
    requires
        count > 0 ==> ptr is Some,
    ensures
        array_valid(ptr, count) <==> {
            &&& ptr is None || ptr->0@.len() >= count
            &&& forall|i: int| 0 <= i < count ==> (#[trigger] ptr->0@[i]).valid()
        },
{
    let view = c_array_view(ptr, count);
    if count > 0 && ptr->0@.len() >= count {
        assert(view.len() == count);
        if array_valid(ptr, count) {
            assert forall|i: int| 0 <= i < count implies (#[trigger] ptr->0@[i]).valid() by {
                assert(view[i].valid());
            }
        }
        if forall|i: int| 0 <= i < count ==> (#[trigger] ptr->0@[i]).valid() {
            assert forall|i: int| 0 <= i < view.len() implies (#[trigger] view[i]).valid() by {
                assert(view[i] == ptr->0@[i]);
            }
        }
    }
}

/// A structure is good where each of its pointers that is not NULL has as many bytes
/// behind it as its length says, whatever else it holds.
pub proof fn structure_is_good(
    p: rsi_path_entry,
    m: rsi_key_metadata,
    v: rsi_value_entry,
    b: rsi_blanket_entry,
    c: rsi_child_entry,
)
    ensures
        p.valid() <==> p.layer is None || p.layer->0@.len() >= p.layer_len,
        m.valid() <==> m.sd is None || m.sd->0@.len() >= m.sd_len,
        v.valid() <==> {
            &&& v.value_name is None || v.value_name->0@.len() >= v.value_name_len
            &&& v.layer_name is None || v.layer_name->0@.len() >= v.layer_name_len
            &&& v.data is None || v.data->0@.len() >= v.data_len
        },
        b.valid() <==> b.layer_name is None || b.layer_name->0@.len() >= b.layer_name_len,
        c.valid() <==> {
            &&& c.child_name is None || c.child_name->0@.len() >= c.child_name_len
            &&& array_valid(c.entries, c.entry_count)
        },
{
}

/// A flag is 0 or 1; a target is the number 0, or the number 1 with sixteen zero bytes.
pub proof fn flags_and_targets(value: u8, target_guid: Guid)
    ensures
        bool_ok(value) <==> value < 2,
        path_target_ok(value, target_guid) <==> value == 0 || (value == 1 && target_guid == [
            0u8;
            16usize
        ]),
{
    nil_is_all_zero(target_guid);
}

/// A decoder succeeds exactly where both arguments are there and the payload was parsed; a
/// missing argument is `EINVAL` whatever the payload, and otherwise a payload that was not
/// parsed is `EBADMSG`.
pub proof fn decoders_fail_for_cause(req: bool, parsed: bool, out: bool)
    ensures
        decoded(req, parsed, out) is Ok <==> req && parsed && out,
        decoded(req, parsed, out) == Err::<(), Errno>(Errno::EINVAL) <==> !(req && out),
        decoded(req, parsed, out) == Err::<(), Errno>(Errno::EBADMSG) <==> req && out && !parsed,
{
}

/// A field that is handed out is the bytes that were parsed, and its length is their
/// number, as far as 32 bits hold it. Two fields that are handed out alike are the same.
pub proof fn field_is_handed_out_whole(data: &[u8], ptr: Option<&[u8]>, len: u32)
    requires
        is_field(data, ptr, len),
    ensures
        ptr is Some,
        ptr->0@ == data@,
        len == data.len() as u32,
        data@.len() <= u32::MAX ==> len == data@.len(),
{
}

/// A flag that is handed out is 1 where it is set and 0 where it is not, and the modes of
/// a transaction are 0 where it may write and 1 where it only reads.
pub proof fn flags_and_modes_have_their_numbers()
    ensures
        flag(true) == 1,
        flag(false) == 0,
        RsiTransactionMode::ReadWrite.number() == 0,
        RsiTransactionMode::ReadOnly.number() == 1,
{
}

/// The op-code of a response is that of the request with the top bit set.
pub proof fn response_op_sets_the_top_bit(op_code: u16)
    ensures
        response_op(op_code) == (if op_code < 0x8000 {
            op_code + 0x8000
        } else {
            op_code as int
        }),
{
    assert(op_code < 0x8000u16 ==> (op_code | 0x8000u16) == op_code + 0x8000) by (bit_vector);
    assert(op_code >= 0x8000u16 ==> (op_code | 0x8000u16) == op_code) by (bit_vector);
}

/// A writer that took bytes in has what it had before and then those bytes; one that ran
/// out of memory stays out of memory, and takes nothing more in.
pub proof fn writer_keeps_what_it_has(w: FrameWriter, before: FrameWriter, bytes: Seq<u8>)
    requires
        w.appended(before, bytes),
    ensures
        before.oom ==> w.oom && w.buf@ == before.buf@,
        !w.oom ==> w.buf@.len() == before.buf@.len() + bytes.len(),
        !w.oom ==> forall|i: int|
            0 <= i < before.buf@.len() ==> #[trigger] w.buf@[i] == before.buf@[i],
        !w.oom ==> forall|i: int|
            0 <= i < bytes.len() ==> w.buf@[before.buf@.len() + i] == #[trigger] bytes[i],
{
}

proof fn lemma_first_difference(a: Seq<u8>, b: Seq<u8>, k: int)
    requires
        a.len() == b.len(),
        0 <= k < a.len(),
        a[k] != b[k],
        forall|i: int| 0 <= i < k ==> a[i] == b[i],
    ensures
        lex_le(a, b) <==> a[k] < b[k],
    decreases k,
{
    if k > 0 {
        let x = a.skip(1);
        let y = b.skip(1);
        assert(x[k - 1] == a[k] && y[k - 1] == b[k]);
        assert forall|i: int| 0 <= i < k - 1 implies x[i] == y[i] by {
            assert(x[i] == a[i + 1] && y[i] == b[i + 1]);
        }
        lemma_first_difference(x, y, k - 1);
        assert(a[0] == b[0]);
    }
}

/// Of two GUIDs, the one whose byte is smaller where they first differ stands first.
pub proof fn first_difference_decides(a: Guid, b: Guid, k: int)
    requires
        0 <= k < 16,
        a@[k] != b@[k],
        forall|i: int| 0 <= i < k ==> a@[i] == b@[i],
    ensures
        guid_le(a, b) <==> a@[k] < b@[k],
{
    lemma_first_difference(a@, b@, k);
}

/// In an ordered set every GUID differs from every later one, and stands before it.
pub proof fn ordered_set_climbs(guids: Seq<Guid>, i: int, j: int)
    requires
        ordered_set(guids),
        0 <= i < j < guids.len(),
    ensures
        guids[i] != guids[j],
        guid_le(guids[i], guids[j]),
        !guid_le(guids[j], guids[i]),
{
    let a = guids[i]@;
    let b = guids[j]@;
    if forall|k: int| 0 <= k < 16 ==> a[k] == b[k] {
        assert(guids[i] =~= guids[j]);
    }
    let k = lemma_differ(a, b, 0);
    lemma_first_difference(a, b, k);
    lemma_first_difference(b, a, k);
}

proof fn lemma_differ(a: Seq<u8>, b: Seq<u8>, from: int) -> (k: int)
    requires
        a.len() == b.len(),
        0 <= from <= a.len(),
        forall|i: int| 0 <= i < from ==> a[i] == b[i],
        exists|i: int| 0 <= i < a.len() && a[i] != b[i],
    ensures
        0 <= k < a.len(),
        a[k] != b[k],
        forall|i: int| 0 <= i < k ==> a[i] == b[i],
    decreases a.len() - from,
{
    if from == a.len() {
        from
    } else if a[from] != b[from] {
        from
    } else {
        lemma_differ(a, b, from + 1)
    }
}

/// A list has unique GUIDs, none of them nil, exactly where no two places hold the same
/// GUID and none holds sixteen zero bytes.
pub proof fn unique_and_not_nil(guids: Seq<Guid>)
    ensures
        unique_nonzero(guids) <==> {
            &&& forall|i: int| 0 <= i < guids.len() ==> #[trigger] guids[i] != [0u8; 16usize]
            &&& forall|i: int, j: int|
                0 <= i < j < guids.len() ==> #[trigger] guids[i] != #[trigger] guids[j]
        },
{
    assert forall|i: int| 0 <= i < guids.len() implies (is_nil(#[trigger] guids[i])
        <==> guids[i] == [0u8; 16usize]) by {
        nil_is_all_zero(guids[i]);
    }
    if {
        &&& forall|i: int| 0 <= i < guids.len() ==> #[trigger] guids[i] != [0u8; 16usize]
        &&& forall|i: int, j: int|
            0 <= i < j < guids.len() ==> #[trigger] guids[i] != #[trigger] guids[j]
    } {
        assert(guids.no_duplicates());
    }
}

/// A registration has one entry for each hive that was handed over, in order, with the
/// address and the length of its name, its GUIDs and its flags, and with zero padding; and
/// it counts them, and carries the sequence number on.
pub proof fn registration_lays_out_every_hive(
    reg: Registration,
    hives: Option<&[rsi_hive]>,
    count: u32,
    max_sequence: u64,
)
    requires
        c_array_valid(hives, count),
        hives is Some,
        is_registration(reg, c_array_view(hives, count), count, max_sequence),
    ensures
        reg.hive_count == count,
        reg.max_sequence == max_sequence,
        reg.entries@.len() == count,
        forall|i: int|
            0 <= i < count ==> {
                let h = hives->0@[i];
                &&& (#[trigger] reg.entries@[i]).name_len == h.name_len
                &&& reg.entries@[i].name_ptr == h.name
                &&& reg.entries@[i].root_guid == h.root_guid
                &&& reg.entries@[i].flags == h.flags
                &&& reg.entries@[i].scope_guid == h.scope_guid
                &&& reg.entries@[i]._pad0 == 0
                &&& reg.entries@[i]._pad1 == 0
            },
{
    assert forall|i: int| 0 <= i < count implies {
        let h = hives->0@[i];
        &&& (#[trigger] reg.entries@[i]).name_len == h.name_len
        &&& reg.entries@[i].name_ptr == h.name
        &&& reg.entries@[i].root_guid == h.root_guid
        &&& reg.entries@[i].flags == h.flags
        &&& reg.entries@[i].scope_guid == h.scope_guid
        &&& reg.entries@[i]._pad0 == 0
        &&& reg.entries@[i]._pad1 == 0
    } by {
        assert(c_array_view(hives, count)[i] == hives->0@[i]);
    }
}

/// What comes of opening, registering and closing, one after the other. A device that does
/// not open is a failure with the `errno` of the opening. One that opens is registered on;
/// where that succeeds, its descriptor is served, and where it does not, its descriptor is
/// closed and the failure has the `errno` of the registration, whatever the close did.
pub proof fn registration_goes_its_way(fd: i32, ret: i32, errno: i32)
    ensures
        ({
            let (opened, first) = register_next(
                RegisterState::Opening,
                RegisterEvent::Opened { fd },
            );
            let (registered, second) = register_next(
                opened,
                RegisterEvent::Registered { ret, errno },
            );
            let (closed, third) = register_next(registered, RegisterEvent::Closed);
            &&& fd < 0 ==> first == RegisterAction::Fail && opened == RegisterState::Finished
            &&& fd >= 0 ==> first == (RegisterAction::Register { fd }) && awaited(
                opened,
                RegisterEvent::Registered { ret, errno },
            )
            &&& fd >= 0 && ret >= 0 ==> second == (RegisterAction::Serve { fd }) && registered
                == RegisterState::Finished
            &&& fd >= 0 && ret < 0 ==> {
                &&& second == (RegisterAction::Close { fd })
                &&& awaited(registered, RegisterEvent::Closed)
                &&& third == (RegisterAction::FailWith { errno })
                &&& closed == RegisterState::Finished
            }
        }),
        forall|event: RegisterEvent| !awaited(RegisterState::Finished, event),
{
}

} // verus!
