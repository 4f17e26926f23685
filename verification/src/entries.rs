//! The structures a caller fills in for a reply, what each stands for on the wire, and
//! when it may go there.
use vstd::prelude::*;

use crate::c_array::{c_array_present, c_array_valid, c_array_view, c_slice, require_array};
use crate::errno::Errno;
use crate::frame::FrameWriter;
use crate::guids::{guid_is_nil, is_nil, Guid};
use crate::little_endian::le_bytes;
use crate::records::{
    block_bytes, block_fits, concat, lemma_concat_step, BlanketEntry, ChildEntry, KeyMetadata,
    PathEntry, ValueEntry, WireRecord,
};
use crate::vocabulary::{RSI_PATH_TARGET_GUID, RSI_PATH_TARGET_HIDDEN};

verus! {

// ---------------------------------------------------------------------------
// Rules on single fields
// ---------------------------------------------------------------------------

/// A byte that stands for a flag is 0 or 1.
pub open spec fn bool_ok(value: u8) -> bool {
    value == 0 || value == 1
}

/// A target names a key, or hides the child and then names none.
pub open spec fn path_target_ok(target_type: u8, target_guid: Guid) -> bool {
    ||| target_type == RSI_PATH_TARGET_GUID
    ||| target_type == RSI_PATH_TARGET_HIDDEN && is_nil(target_guid)
}

/// Refuses a byte that is no flag.
pub fn require_bool(value: u8) -> (r: Result<(), Errno>)
    ensures
        r == (if bool_ok(value) {
            Ok::<(), Errno>(())
        } else {
            Err(Errno::EINVAL)
        }),
{
    if value == 0 || value == 1 {
        Ok(())
    } else {
        Err(Errno::EINVAL)
    }
}

/// Refuses a target of an unknown kind, and a hidden one that names a key.
pub fn require_path_target(target_type: u8, target_guid: &Guid) -> (r: Result<(), Errno>)
    ensures
        r == (if path_target_ok(target_type, *target_guid) {
            Ok::<(), Errno>(())
        } else {
            Err(Errno::EINVAL)
        }),
{
    if target_type == RSI_PATH_TARGET_GUID {
        Ok(())
    } else if target_type == RSI_PATH_TARGET_HIDDEN && guid_is_nil(target_guid) {
        Ok(())
    } else {
        Err(Errno::EINVAL)
    }
}

/// Whether a target names a key.
pub fn is_guid_target(target_type: u8) -> (r: bool)
    ensures
        r == (target_type == RSI_PATH_TARGET_GUID),
{
    target_type == RSI_PATH_TARGET_GUID
}

// ---------------------------------------------------------------------------
// Structures and arrays of them
// ---------------------------------------------------------------------------

/// A structure that stands for a record of a reply.
pub trait CRecord: Sized {
    /// The kind of record it stands for.
    type Record: WireRecord;

    /// The record it stands for.
    spec fn record(&self) -> Self::Record;

    /// Its pointers are good for their lengths.
    spec fn valid(&self) -> bool;

    /// It may go into a reply.
    spec fn accepted(&self) -> bool;

    /// What a good structure stands for can be written down.
    proof fn valid_fits(&self)
        requires
            self.valid(),
        ensures
            self.record().fits(),
    ;

    /// Appends the record to a frame, or refuses it.
    fn encode(&self, w: &mut FrameWriter) -> (r: Result<(), Errno>)
        requires
            self.valid(),
        ensures
            match r {
                Ok(_) => self.accepted() && final(w).appended(*old(w), self.record().bytes()),
                Err(e) => e == Errno::EINVAL && !self.accepted(),
            },
    ;
}

/// The records that a run of structures stands for.
pub open spec fn records_of<T: CRecord>(s: Seq<T>) -> Seq<T::Record> {
    Seq::new(s.len(), |i: int| s[i].record())
}

/// The records that an array stands for.
pub open spec fn array_records<T: CRecord>(ptr: Option<&[T]>, count: u32) -> Seq<T::Record> {
    records_of(c_array_view(ptr, count))
}

/// The pointer of the array, and every pointer in it, is good for its length.
pub open spec fn array_valid<T: CRecord>(ptr: Option<&[T]>, count: u32) -> bool {
    &&& c_array_valid(ptr, count)
    &&& forall|i: int|
        0 <= i < c_array_view(ptr, count).len() ==> (#[trigger] c_array_view(ptr, count)[i]).valid()
}

/// The array is there, and everything in it may go into a reply.
pub open spec fn array_accepted<T: CRecord>(ptr: Option<&[T]>, count: u32) -> bool {
    &&& c_array_present(ptr, count)
    &&& forall|i: int|
        0 <= i < c_array_view(ptr, count).len() ==> (#[trigger] c_array_view(
            ptr,
            count,
        )[i]).accepted()
}

/// What an array of good structures stands for can be written down as a list.
pub proof fn array_fits<T: CRecord>(ptr: Option<&[T]>, count: u32)
    requires
        array_valid(ptr, count),
    ensures
        block_fits(array_records(ptr, count)),
{
    let structures = c_array_view(ptr, count);
    let all = array_records(ptr, count);
    assert forall|i: int| 0 <= i < all.len() implies (#[trigger] all[i]).fits() by {
        structures[i].valid_fits();
    }
}

/// Appends a list: its count, then its records.
pub fn encode_block<T: CRecord>(w: &mut FrameWriter, ptr: Option<&[T]>, count: u32) -> (r: Result<
    (),
    Errno,
>)
    requires
        array_valid(ptr, count),
    ensures
        match r {
            Ok(_) => array_accepted(ptr, count) && final(w).appended(
                *old(w),
                block_bytes(array_records(ptr, count)),
            ),
            Err(e) => e == Errno::EINVAL && !array_accepted(ptr, count),
        },
{
    if let Err(e) = require_array(ptr, count) {
        return Err(e);
    }
    let structures: &[T] = c_slice(ptr, count);
    let ghost all = records_of(structures@);
    let ghost before = *w;
    let ghost prefix = le_bytes(count as nat, 4);
    w.u32(count);
    let mut i: usize = 0;
    assert(all.take(0) =~= Seq::empty());
    assert(prefix + concat(all.take(0)) =~= prefix);
    while i < structures.len()
        invariant
            i <= structures@.len(),
            all == records_of(structures@),
            structures@ == c_array_view(ptr, count),
            array_valid(ptr, count),
            forall|k: int| 0 <= k < i ==> (#[trigger] structures@[k]).accepted(),
            w.appended(before, prefix + concat(all.take(i as int))),
        decreases structures@.len() - i,
    {
        assert(structures@[i as int].valid());
        if let Err(e) = structures[i].encode(w) {
            assert(!structures@[i as int].accepted());
            return Err(e);
        }
        proof {
            assert(structures@[i as int].accepted());
            lemma_concat_step(all, i as int);
            assert(!w.oom ==> w.buf@ =~= before.buf@ + (prefix + concat(all.take(i + 1))));
        }
        i += 1;
    }
    assert(all.take(structures@.len() as int) =~= all);
    Ok(())
}

/// One layer's answer for a child (LOOKUP, ENUM_CHILDREN).
pub struct rsi_path_entry<'a> {
    pub layer: Option<&'a [u8]>,
    pub layer_len: u32,
    /// `RSI_PATH_TARGET_GUID` or `RSI_PATH_TARGET_HIDDEN`.
    pub target_type: u8,
    pub target_guid: Guid,
    pub sequence: u64,
}

impl<'a> rsi_path_entry<'a> {
    /// The entry keeps the rule on targets.
    pub open spec fn target_ok(&self) -> bool {
        path_target_ok(self.target_type, self.target_guid)
    }
}

impl<'a> CRecord for rsi_path_entry<'a> {
    type Record = PathEntry;

    open spec fn record(&self) -> PathEntry {
        PathEntry {
            layer: c_array_view(self.layer, self.layer_len),
            target_type: self.target_type,
            target_guid: self.target_guid,
            sequence: self.sequence,
        }
    }

    open spec fn valid(&self) -> bool {
        c_array_valid(self.layer, self.layer_len)
    }

    open spec fn accepted(&self) -> bool {
        c_array_present(self.layer, self.layer_len) && self.target_ok()
    }

    proof fn valid_fits(&self) {
        assert(self.record().fits());
    }

    fn encode(&self, w: &mut FrameWriter) -> (r: Result<(), Errno>) {
        if let Err(e) = w.lpf(self.layer, self.layer_len) {
            return Err(e);
        }
        if let Err(e) = require_path_target(self.target_type, &self.target_guid) {
            return Err(e);
        }
        w.u8(self.target_type);
        w.guid(&self.target_guid);
        w.u64(self.sequence);
        assert(!w.oom ==> w.buf@ =~= old(w).buf@ + self.record().bytes());
        Ok(())
    }
}

/// The metadata of one key (LOOKUP, ENUM_CHILDREN).
pub struct rsi_key_metadata<'a> {
    pub guid: Guid,
    pub sd: Option<&'a [u8]>,
    pub sd_len: u32,
    pub volatile_key: u8,
    pub symlink: u8,
    pub last_write_time: u64,
}

impl<'a> CRecord for rsi_key_metadata<'a> {
    type Record = KeyMetadata;

    open spec fn record(&self) -> KeyMetadata {
        KeyMetadata {
            guid: self.guid,
            sd: c_array_view(self.sd, self.sd_len),
            volatile_key: self.volatile_key,
            symlink: self.symlink,
            last_write_time: self.last_write_time,
        }
    }

    open spec fn valid(&self) -> bool {
        c_array_valid(self.sd, self.sd_len)
    }

    open spec fn accepted(&self) -> bool {
        c_array_present(self.sd, self.sd_len) && bool_ok(self.volatile_key) && bool_ok(self.symlink)
    }

    proof fn valid_fits(&self) {
        assert(self.record().fits());
    }

    fn encode(&self, w: &mut FrameWriter) -> (r: Result<(), Errno>) {
        w.guid(&self.guid);
        if let Err(e) = w.lpf(self.sd, self.sd_len) {
            return Err(e);
        }
        if let Err(e) = require_bool(self.volatile_key) {
            return Err(e);
        }
        if let Err(e) = require_bool(self.symlink) {
            return Err(e);
        }
        w.u8(self.volatile_key);
        w.u8(self.symlink);
        w.u64(self.last_write_time);
        assert(!w.oom ==> w.buf@ =~= old(w).buf@ + self.record().bytes());
        Ok(())
    }
}

/// One child, and every layer's answer for it (ENUM_CHILDREN).
pub struct rsi_child_entry<'a> {
    pub child_name: Option<&'a [u8]>,
    pub child_name_len: u32,
    pub entries: Option<&'a [rsi_path_entry<'a>]>,
    pub entry_count: u32,
}

impl<'a> rsi_child_entry<'a> {
    /// The path entries are there, and each keeps the rule on targets.
    pub open spec fn targets_ok(&self) -> bool {
        path_targets_ok(self.entries, self.entry_count)
    }
}

impl<'a> CRecord for rsi_child_entry<'a> {
    type Record = ChildEntry;

    open spec fn record(&self) -> ChildEntry {
        ChildEntry {
            child_name: c_array_view(self.child_name, self.child_name_len),
            entries: array_records(self.entries, self.entry_count),
        }
    }

    open spec fn valid(&self) -> bool {
        &&& c_array_valid(self.child_name, self.child_name_len)
        &&& array_valid(self.entries, self.entry_count)
    }

    open spec fn accepted(&self) -> bool {
        &&& c_array_present(self.child_name, self.child_name_len)
        &&& array_accepted(self.entries, self.entry_count)
    }

    proof fn valid_fits(&self) {
        array_fits(self.entries, self.entry_count);
        assert(self.record().fits());
    }

    fn encode(&self, w: &mut FrameWriter) -> (r: Result<(), Errno>) {
        if let Err(e) = w.lpf(self.child_name, self.child_name_len) {
            return Err(e);
        }
        if let Err(e) = encode_path_entry_block(w, self.entries, self.entry_count) {
            return Err(e);
        }
        assert(!w.oom ==> w.buf@ =~= old(w).buf@ + self.record().bytes());
        Ok(())
    }
}

/// One layer's data for a value (QUERY_VALUES).
pub struct rsi_value_entry<'a> {
    pub value_name: Option<&'a [u8]>,
    pub value_name_len: u32,
    pub layer_name: Option<&'a [u8]>,
    pub layer_name_len: u32,
    pub value_type: u32,
    pub data: Option<&'a [u8]>,
    pub data_len: u32,
    pub sequence: u64,
}

impl<'a> CRecord for rsi_value_entry<'a> {
    type Record = ValueEntry;

    open spec fn record(&self) -> ValueEntry {
        ValueEntry {
            value_name: c_array_view(self.value_name, self.value_name_len),
            layer_name: c_array_view(self.layer_name, self.layer_name_len),
            value_type: self.value_type,
            data: c_array_view(self.data, self.data_len),
            sequence: self.sequence,
        }
    }

    open spec fn valid(&self) -> bool {
        &&& c_array_valid(self.value_name, self.value_name_len)
        &&& c_array_valid(self.layer_name, self.layer_name_len)
        &&& c_array_valid(self.data, self.data_len)
    }

    open spec fn accepted(&self) -> bool {
        &&& c_array_present(self.value_name, self.value_name_len)
        &&& c_array_present(self.layer_name, self.layer_name_len)
        &&& c_array_present(self.data, self.data_len)
    }

    proof fn valid_fits(&self) {
        assert(self.record().fits());
    }

    fn encode(&self, w: &mut FrameWriter) -> (r: Result<(), Errno>) {
        if let Err(e) = w.lpf(self.value_name, self.value_name_len) {
            return Err(e);
        }
        if let Err(e) = w.lpf(self.layer_name, self.layer_name_len) {
            return Err(e);
        }
        w.u32(self.value_type);
        if let Err(e) = w.lpf(self.data, self.data_len) {
            return Err(e);
        }
        w.u64(self.sequence);
        assert(!w.oom ==> w.buf@ =~= old(w).buf@ + self.record().bytes());
        Ok(())
    }
}

/// One blanket tombstone (QUERY_VALUES).
pub struct rsi_blanket_entry<'a> {
    pub layer_name: Option<&'a [u8]>,
    pub layer_name_len: u32,
    pub sequence: u64,
}

impl<'a> CRecord for rsi_blanket_entry<'a> {
    type Record = BlanketEntry;

    open spec fn record(&self) -> BlanketEntry {
        BlanketEntry {
            layer_name: c_array_view(self.layer_name, self.layer_name_len),
            sequence: self.sequence,
        }
    }

    open spec fn valid(&self) -> bool {
        c_array_valid(self.layer_name, self.layer_name_len)
    }

    open spec fn accepted(&self) -> bool {
        c_array_present(self.layer_name, self.layer_name_len)
    }

    proof fn valid_fits(&self) {
        assert(self.record().fits());
    }

    fn encode(&self, w: &mut FrameWriter) -> (r: Result<(), Errno>) {
        if let Err(e) = w.lpf(self.layer_name, self.layer_name_len) {
            return Err(e);
        }
        w.u64(self.sequence);
        assert(!w.oom ==> w.buf@ =~= old(w).buf@ + self.record().bytes());
        Ok(())
    }
}

/// The path entries are there, and each keeps the rule on targets.
pub open spec fn path_targets_ok(entries: Option<&[rsi_path_entry]>, count: u32) -> bool {
    &&& c_array_present(entries, count)
    &&& forall|i: int|
        0 <= i < c_array_view(entries, count).len() ==> (#[trigger] c_array_view(
            entries,
            count,
        )[i]).target_ok()
}

/// The children are there, and each of their path entries keeps the rule on targets.
pub open spec fn child_targets_ok(children: Option<&[rsi_child_entry]>, count: u32) -> bool {
    &&& c_array_present(children, count)
    &&& forall|i: int|
        0 <= i < c_array_view(children, count).len() ==> (#[trigger] c_array_view(
            children,
            count,
        )[i]).targets_ok()
}

/// Appends a list of path entries.
pub fn encode_path_entry_block(
    w: &mut FrameWriter,
    entries: Option<&[rsi_path_entry]>,
    count: u32,
) -> (r: Result<(), Errno>)
    requires
        array_valid(entries, count),
    ensures
        match r {
            Ok(_) => array_accepted(entries, count) && final(w).appended(
                *old(w),
                block_bytes(array_records(entries, count)),
            ),
            Err(e) => e == Errno::EINVAL && !array_accepted(entries, count),
        },
{
    encode_block(w, entries, count)
}

/// Appends a list of metadata records.
pub fn encode_metadata_block(
    w: &mut FrameWriter,
    metadata: Option<&[rsi_key_metadata]>,
    count: u32,
) -> (r: Result<(), Errno>)
    requires
        array_valid(metadata, count),
    ensures
        match r {
            Ok(_) => array_accepted(metadata, count) && final(w).appended(
                *old(w),
                block_bytes(array_records(metadata, count)),
            ),
            Err(e) => e == Errno::EINVAL && !array_accepted(metadata, count),
        },
{
    encode_block(w, metadata, count)
}

} // verus!
