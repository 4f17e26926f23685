//! The records that replies are made of, and their place on the wire.
//!
//! Integers are little-endian, GUIDs are sixteen raw bytes, names and data are
//! prefixed with their length, and a list is prefixed with its count. Each record
//! says what its bytes are and how it is read off the front of a byte string; that
//! the two agree is proved for each.
use vstd::prelude::*;

use crate::guids::Guid;
use crate::little_endian::{le_bound, le_bytes, le_bytes_round_trip, le_value, lemma_le_bounds, lemma_le_bytes_len};

verus! {

/// A record with a wire form that can be read back without knowing where it ends.
pub trait WireRecord: Sized {
    /// Every length and count in the record can be written in its length field.
    spec fn fits(self) -> bool;

    /// The bytes of the record.
    spec fn bytes(self) -> Seq<u8>;

    /// The record that `b` begins with, and what follows it.
    spec fn read(b: Seq<u8>) -> Option<(Self, Seq<u8>)>;

    /// Reading what was written gives the record, and leaves what follows untouched.
    proof fn read_back(self, rest: Seq<u8>)
        requires
            self.fits(),
        ensures
            Self::read(self.bytes() + rest) == Some((self, rest)),
    ;
}

/// The integer that `b` begins with.
pub open spec fn read_le(b: Seq<u8>, width: nat) -> Option<(nat, Seq<u8>)> {
    if b.len() < width {
        None
    } else {
        Some((le_value(b.take(width as int)), b.skip(width as int)))
    }
}

/// A length-prefixed field: a 32-bit length, then the bytes.
pub open spec fn lpf_bytes(field: Seq<u8>) -> Seq<u8> {
    le_bytes(field.len(), 4) + field
}

/// A field is short enough for its length prefix.
pub open spec fn lpf_fits(field: Seq<u8>) -> bool {
    field.len() <= u32::MAX
}

/// The length-prefixed field that `b` begins with.
pub open spec fn read_lpf(b: Seq<u8>) -> Option<(Seq<u8>, Seq<u8>)> {
    match read_le(b, 4) {
        Some((len, b1)) => if b1.len() < len {
            None
        } else {
            Some((b1.take(len as int), b1.skip(len as int)))
        },
        None => None,
    }
}

/// The GUID that `b` begins with.
pub open spec fn read_guid(b: Seq<u8>) -> Option<(Guid, Seq<u8>)> {
    if b.len() < 16 {
        None
    } else {
        Some((choose|g: Guid| #[trigger] g@ == b.take(16), b.skip(16)))
    }
}

proof fn lemma_read_le(x: nat, width: nat, rest: Seq<u8>)
    requires
        x < le_bound(width),
    ensures
        read_le(le_bytes(x, width) + rest, width) == Some((x, rest)),
{
    lemma_le_bytes_len(x, width);
    le_bytes_round_trip(x, width);
    assert((le_bytes(x, width) + rest).take(width as int) =~= le_bytes(x, width));
    assert((le_bytes(x, width) + rest).skip(width as int) =~= rest);
}

proof fn lemma_read_lpf(field: Seq<u8>, rest: Seq<u8>)
    requires
        lpf_fits(field),
    ensures
        read_lpf(lpf_bytes(field) + rest) == Some((field, rest)),
{
    lemma_le_bounds();
    assert(lpf_bytes(field) + rest =~= le_bytes(field.len(), 4) + (field + rest));
    lemma_read_le(field.len(), 4, field + rest);
    assert((field + rest).take(field.len() as int) =~= field);
    assert((field + rest).skip(field.len() as int) =~= rest);
}

proof fn lemma_read_guid(guid: Guid, rest: Seq<u8>)
    ensures
        read_guid(guid@ + rest) == Some((guid, rest)),
{
    let b = guid@ + rest;
    assert(b.take(16) =~= guid@);
    assert(b.skip(16) =~= rest);
    let g = choose|g: Guid| #[trigger] g@ == b.take(16);
    assert(g@ == guid@);
    assert(g =~= guid);
}

/// The bytes of a run of records, one after the other.
pub open spec fn concat<T: WireRecord>(records: Seq<T>) -> Seq<u8>
    decreases records.len(),
{
    if records.len() == 0 {
        Seq::empty()
    } else {
        concat(records.drop_last()) + records.last().bytes()
    }
}

/// A list: a 32-bit count, then the records.
pub open spec fn block_bytes<T: WireRecord>(records: Seq<T>) -> Seq<u8> {
    le_bytes(records.len(), 4) + concat(records)
}

/// The count fits its field, and so does every record.
pub open spec fn block_fits<T: WireRecord>(records: Seq<T>) -> bool {
    &&& records.len() <= u32::MAX
    &&& forall|i: int| 0 <= i < records.len() ==> (#[trigger] records[i]).fits()
}

/// The `count` records that `b` begins with.
pub open spec fn read_run<T: WireRecord>(b: Seq<u8>, count: nat) -> Option<(Seq<T>, Seq<u8>)>
    decreases count,
{
    if count == 0 {
        Some((Seq::empty(), b))
    } else {
        match T::read(b) {
            Some((first, b1)) => match read_run::<T>(b1, (count - 1) as nat) {
                Some((others, b2)) => Some((seq![first] + others, b2)),
                None => None,
            },
            None => None,
        }
    }
}

/// The list that `b` begins with.
pub open spec fn read_block<T: WireRecord>(b: Seq<u8>) -> Option<(Seq<T>, Seq<u8>)> {
    match read_le(b, 4) {
        Some((count, b1)) => read_run::<T>(b1, count),
        None => None,
    }
}

/// One more record is behind the ones before it.
pub proof fn lemma_concat_step<T: WireRecord>(records: Seq<T>, i: int)
    requires
        0 <= i < records.len(),
    ensures
        concat(records.take(i + 1)) == concat(records.take(i)) + records[i].bytes(),
{
    assert(records.take(i + 1).drop_last() =~= records.take(i));
}

proof fn lemma_concat_front<T: WireRecord>(records: Seq<T>)
    requires
        records.len() > 0,
    ensures
        concat(records) == records[0].bytes() + concat(records.skip(1)),
    decreases records.len(),
{
    if records.len() == 1 {
        assert(records.drop_last() =~= Seq::<T>::empty());
        assert(records.skip(1) =~= Seq::<T>::empty());
        assert(concat(records.drop_last()) =~= Seq::<u8>::empty());
        assert(concat(records.skip(1)) =~= Seq::<u8>::empty());
        assert(concat(records) =~= records[0].bytes() + concat(records.skip(1)));
    } else {
        lemma_concat_front(records.drop_last());
        assert(records.drop_last().skip(1) =~= records.skip(1).drop_last());
        assert(concat(records) =~= records[0].bytes() + concat(records.skip(1)));
    }
}

proof fn lemma_read_run<T: WireRecord>(records: Seq<T>, rest: Seq<u8>)
    requires
        forall|i: int| 0 <= i < records.len() ==> (#[trigger] records[i]).fits(),
    ensures
        read_run::<T>(concat(records) + rest, records.len()) == Some((records, rest)),
    decreases records.len(),
{
    if records.len() == 0 {
        assert(concat(records) + rest =~= rest);
        assert(records =~= Seq::<T>::empty());
    } else {
        let others = records.skip(1);
        lemma_concat_front(records);
        assert(concat(records) + rest =~= records[0].bytes() + (concat(others) + rest));
        records[0].read_back(concat(others) + rest);
        assert forall|i: int| 0 <= i < others.len() implies (#[trigger] others[i]).fits() by {
            assert(others[i] == records[i + 1]);
        }
        lemma_read_run(others, rest);
        assert(seq![records[0]] + others =~= records);
    }
}

/// A list is read back as it was written.
pub proof fn block_round_trip<T: WireRecord>(records: Seq<T>, rest: Seq<u8>)
    requires
        block_fits(records),
    ensures
        read_block::<T>(block_bytes(records) + rest) == Some((records, rest)),
{
    lemma_le_bounds();
    assert(block_bytes(records) + rest =~= le_bytes(records.len(), 4) + (concat(records) + rest));
    lemma_read_le(records.len(), 4, concat(records) + rest);
    lemma_read_run(records, rest);
}

impl WireRecord for Guid {
    open spec fn fits(self) -> bool {
        true
    }

    open spec fn bytes(self) -> Seq<u8> {
        self@
    }

    open spec fn read(b: Seq<u8>) -> Option<(Guid, Seq<u8>)> {
        read_guid(b)
    }

    proof fn read_back(self, rest: Seq<u8>) {
        lemma_read_guid(self, rest);
    }
}

/// One layer's answer for a child: the key it names there, or that it hides the child.
#[verifier::ext_equal]
pub struct PathEntry {
    pub layer: Seq<u8>,
    pub target_type: u8,
    pub target_guid: Guid,
    pub sequence: u64,
}

impl WireRecord for PathEntry {
    open spec fn fits(self) -> bool {
        lpf_fits(self.layer)
    }

    open spec fn bytes(self) -> Seq<u8> {
        lpf_bytes(self.layer) + seq![self.target_type] + self.target_guid@ + le_bytes(
            self.sequence as nat,
            8,
        )
    }

    open spec fn read(b: Seq<u8>) -> Option<(PathEntry, Seq<u8>)> {
        match read_lpf(b) {
            Some((layer, b1)) => if b1.len() < 1 {
                None
            } else {
                match read_guid(b1.skip(1)) {
                    Some((target_guid, b2)) => match read_le(b2, 8) {
                        Some((sequence, b3)) => Some(
                            (
                                PathEntry {
                                    layer,
                                    target_type: b1[0],
                                    target_guid,
                                    sequence: sequence as u64,
                                },
                                b3,
                            ),
                        ),
                        None => None,
                    },
                    None => None,
                }
            },
            None => None,
        }
    }

    proof fn read_back(self, rest: Seq<u8>) {
        lemma_le_bounds();
        let sequence = le_bytes(self.sequence as nat, 8);
        let b2 = sequence + rest;
        let b1 = seq![self.target_type] + (self.target_guid@ + b2);
        assert(self.bytes() + rest =~= lpf_bytes(self.layer) + b1);
        lemma_read_lpf(self.layer, b1);
        assert(b1.skip(1) =~= self.target_guid@ + b2);
        lemma_read_guid(self.target_guid, b2);
        lemma_read_le(self.sequence as nat, 8, rest);
    }
}

/// What a key carries whatever layer it is seen through.
#[verifier::ext_equal]
pub struct KeyMetadata {
    pub guid: Guid,
    pub sd: Seq<u8>,
    pub volatile_key: u8,
    pub symlink: u8,
    pub last_write_time: u64,
}

impl WireRecord for KeyMetadata {
    open spec fn fits(self) -> bool {
        lpf_fits(self.sd)
    }

    open spec fn bytes(self) -> Seq<u8> {
        self.guid@ + lpf_bytes(self.sd) + seq![self.volatile_key] + seq![self.symlink] + le_bytes(
            self.last_write_time as nat,
            8,
        )
    }

    open spec fn read(b: Seq<u8>) -> Option<(KeyMetadata, Seq<u8>)> {
        match read_guid(b) {
            Some((guid, b1)) => match read_lpf(b1) {
                Some((sd, b2)) => if b2.len() < 2 {
                    None
                } else {
                    match read_le(b2.skip(2), 8) {
                        Some((time, b3)) => Some(
                            (
                                KeyMetadata {
                                    guid,
                                    sd,
                                    volatile_key: b2[0],
                                    symlink: b2[1],
                                    last_write_time: time as u64,
                                },
                                b3,
                            ),
                        ),
                        None => None,
                    }
                },
                None => None,
            },
            None => None,
        }
    }

    proof fn read_back(self, rest: Seq<u8>) {
        lemma_le_bounds();
        let time = le_bytes(self.last_write_time as nat, 8);
        let b2 = seq![self.volatile_key, self.symlink] + (time + rest);
        assert(self.bytes() + rest =~= self.guid@ + (lpf_bytes(self.sd) + b2));
        lemma_read_guid(self.guid, lpf_bytes(self.sd) + b2);
        lemma_read_lpf(self.sd, b2);
        assert(b2.skip(2) =~= time + rest);
        lemma_read_le(self.last_write_time as nat, 8, rest);
    }
}

/// One child of a key, with every layer's answer for it.
#[verifier::ext_equal]
pub struct ChildEntry {
    pub child_name: Seq<u8>,
    pub entries: Seq<PathEntry>,
}

impl WireRecord for ChildEntry {
    open spec fn fits(self) -> bool {
        lpf_fits(self.child_name) && block_fits(self.entries)
    }

    open spec fn bytes(self) -> Seq<u8> {
        lpf_bytes(self.child_name) + block_bytes(self.entries)
    }

    open spec fn read(b: Seq<u8>) -> Option<(ChildEntry, Seq<u8>)> {
        match read_lpf(b) {
            Some((child_name, b1)) => match read_block::<PathEntry>(b1) {
                Some((entries, b2)) => Some((ChildEntry { child_name, entries }, b2)),
                None => None,
            },
            None => None,
        }
    }

    proof fn read_back(self, rest: Seq<u8>) {
        let b1 = block_bytes(self.entries) + rest;
        assert(self.bytes() + rest =~= lpf_bytes(self.child_name) + b1);
        lemma_read_lpf(self.child_name, b1);
        block_round_trip(self.entries, rest);
    }
}

/// One layer's data for a value.
#[verifier::ext_equal]
pub struct ValueEntry {
    pub value_name: Seq<u8>,
    pub layer_name: Seq<u8>,
    pub value_type: u32,
    pub data: Seq<u8>,
    pub sequence: u64,
}

impl WireRecord for ValueEntry {
    open spec fn fits(self) -> bool {
        lpf_fits(self.value_name) && lpf_fits(self.layer_name) && lpf_fits(self.data)
    }

    open spec fn bytes(self) -> Seq<u8> {
        lpf_bytes(self.value_name) + lpf_bytes(self.layer_name) + le_bytes(
            self.value_type as nat,
            4,
        ) + lpf_bytes(self.data) + le_bytes(self.sequence as nat, 8)
    }

    open spec fn read(b: Seq<u8>) -> Option<(ValueEntry, Seq<u8>)> {
        match read_lpf(b) {
            Some((value_name, b1)) => match read_lpf(b1) {
                Some((layer_name, b2)) => match read_le(b2, 4) {
                    Some((value_type, b3)) => match read_lpf(b3) {
                        Some((data, b4)) => match read_le(b4, 8) {
                            Some((sequence, b5)) => Some(
                                (
                                    ValueEntry {
                                        value_name,
                                        layer_name,
                                        value_type: value_type as u32,
                                        data,
                                        sequence: sequence as u64,
                                    },
                                    b5,
                                ),
                            ),
                            None => None,
                        },
                        None => None,
                    },
                    None => None,
                },
                None => None,
            },
            None => None,
        }
    }

    proof fn read_back(self, rest: Seq<u8>) {
        lemma_le_bounds();
        let b4 = le_bytes(self.sequence as nat, 8) + rest;
        let b3 = lpf_bytes(self.data) + b4;
        let b2 = le_bytes(self.value_type as nat, 4) + b3;
        let b1 = lpf_bytes(self.layer_name) + b2;
        assert(self.bytes() + rest =~= lpf_bytes(self.value_name) + b1);
        lemma_read_lpf(self.value_name, b1);
        lemma_read_lpf(self.layer_name, b2);
        lemma_read_le(self.value_type as nat, 4, b3);
        lemma_read_lpf(self.data, b4);
        lemma_read_le(self.sequence as nat, 8, rest);
    }
}

/// A blanket tombstone: a layer that hides every value below it.
#[verifier::ext_equal]
pub struct BlanketEntry {
    pub layer_name: Seq<u8>,
    pub sequence: u64,
}

impl WireRecord for BlanketEntry {
    open spec fn fits(self) -> bool {
        lpf_fits(self.layer_name)
    }

    open spec fn bytes(self) -> Seq<u8> {
        lpf_bytes(self.layer_name) + le_bytes(self.sequence as nat, 8)
    }

    open spec fn read(b: Seq<u8>) -> Option<(BlanketEntry, Seq<u8>)> {
        match read_lpf(b) {
            Some((layer_name, b1)) => match read_le(b1, 8) {
                Some((sequence, b2)) => Some(
                    (BlanketEntry { layer_name, sequence: sequence as u64 }, b2),
                ),
                None => None,
            },
            None => None,
        }
    }

    proof fn read_back(self, rest: Seq<u8>) {
        lemma_le_bounds();
        let b1 = le_bytes(self.sequence as nat, 8) + rest;
        assert(self.bytes() + rest =~= lpf_bytes(self.layer_name) + b1);
        lemma_read_lpf(self.layer_name, b1);
        lemma_read_le(self.sequence as nat, 8, rest);
    }
}

/// The payload of a LOOKUP reply.
#[verifier::ext_equal]
pub struct LookupReply {
    pub entries: Seq<PathEntry>,
    pub metadata: Seq<KeyMetadata>,
}

impl WireRecord for LookupReply {
    open spec fn fits(self) -> bool {
        block_fits(self.entries) && block_fits(self.metadata)
    }

    open spec fn bytes(self) -> Seq<u8> {
        block_bytes(self.entries) + block_bytes(self.metadata)
    }

    open spec fn read(b: Seq<u8>) -> Option<(LookupReply, Seq<u8>)> {
        match read_block::<PathEntry>(b) {
            Some((entries, b1)) => match read_block::<KeyMetadata>(b1) {
                Some((metadata, b2)) => Some((LookupReply { entries, metadata }, b2)),
                None => None,
            },
            None => None,
        }
    }

    proof fn read_back(self, rest: Seq<u8>) {
        let b1 = block_bytes(self.metadata) + rest;
        assert(self.bytes() + rest =~= block_bytes(self.entries) + b1);
        block_round_trip(self.entries, b1);
        block_round_trip(self.metadata, rest);
    }
}

/// The payload of an ENUM_CHILDREN reply.
#[verifier::ext_equal]
pub struct EnumChildrenReply {
    pub children: Seq<ChildEntry>,
    pub metadata: Seq<KeyMetadata>,
}

impl WireRecord for EnumChildrenReply {
    open spec fn fits(self) -> bool {
        block_fits(self.children) && block_fits(self.metadata)
    }

    open spec fn bytes(self) -> Seq<u8> {
        block_bytes(self.children) + block_bytes(self.metadata)
    }

    open spec fn read(b: Seq<u8>) -> Option<(EnumChildrenReply, Seq<u8>)> {
        match read_block::<ChildEntry>(b) {
            Some((children, b1)) => match read_block::<KeyMetadata>(b1) {
                Some((metadata, b2)) => Some((EnumChildrenReply { children, metadata }, b2)),
                None => None,
            },
            None => None,
        }
    }

    proof fn read_back(self, rest: Seq<u8>) {
        let b1 = block_bytes(self.metadata) + rest;
        assert(self.bytes() + rest =~= block_bytes(self.children) + b1);
        block_round_trip(self.children, b1);
        block_round_trip(self.metadata, rest);
    }
}

/// The payload of a READ_KEY reply.
#[verifier::ext_equal]
pub struct ReadKeyReply {
    pub name: Seq<u8>,
    pub parent_guid: Guid,
    pub sd: Seq<u8>,
    pub volatile_key: u8,
    pub symlink: u8,
    pub last_write_time: u64,
}

impl WireRecord for ReadKeyReply {
    open spec fn fits(self) -> bool {
        lpf_fits(self.name) && lpf_fits(self.sd)
    }

    open spec fn bytes(self) -> Seq<u8> {
        lpf_bytes(self.name) + self.parent_guid@ + lpf_bytes(self.sd) + seq![self.volatile_key]
            + seq![self.symlink] + le_bytes(self.last_write_time as nat, 8)
    }

    open spec fn read(b: Seq<u8>) -> Option<(ReadKeyReply, Seq<u8>)> {
        match read_lpf(b) {
            Some((name, b1)) => match KeyMetadata::read(b1) {
                Some((key, b2)) => Some(
                    (
                        ReadKeyReply {
                            name,
                            parent_guid: key.guid,
                            sd: key.sd,
                            volatile_key: key.volatile_key,
                            symlink: key.symlink,
                            last_write_time: key.last_write_time,
                        },
                        b2,
                    ),
                ),
                None => None,
            },
            None => None,
        }
    }

    proof fn read_back(self, rest: Seq<u8>) {
        let key = KeyMetadata {
            guid: self.parent_guid,
            sd: self.sd,
            volatile_key: self.volatile_key,
            symlink: self.symlink,
            last_write_time: self.last_write_time,
        };
        assert(self.bytes() + rest =~= lpf_bytes(self.name) + (key.bytes() + rest));
        lemma_read_lpf(self.name, key.bytes() + rest);
        key.read_back(rest);
    }
}

/// The payload of a DELETE_LAYER reply: the keys no layer refers to any more.
#[verifier::ext_equal]
pub struct DeleteLayerReply {
    pub orphaned: Seq<Guid>,
}

impl WireRecord for DeleteLayerReply {
    open spec fn fits(self) -> bool {
        block_fits(self.orphaned)
    }

    open spec fn bytes(self) -> Seq<u8> {
        block_bytes(self.orphaned)
    }

    open spec fn read(b: Seq<u8>) -> Option<(DeleteLayerReply, Seq<u8>)> {
        match read_block::<Guid>(b) {
            Some((orphaned, b1)) => Some((DeleteLayerReply { orphaned }, b1)),
            None => None,
        }
    }

    proof fn read_back(self, rest: Seq<u8>) {
        block_round_trip(self.orphaned, rest);
    }
}

/// The payload of a QUERY_VALUES reply.
#[verifier::ext_equal]
pub struct QueryValuesReply {
    pub entries: Seq<ValueEntry>,
    pub blankets: Seq<BlanketEntry>,
}

impl WireRecord for QueryValuesReply {
    open spec fn fits(self) -> bool {
        block_fits(self.entries) && block_fits(self.blankets)
    }

    open spec fn bytes(self) -> Seq<u8> {
        block_bytes(self.entries) + block_bytes(self.blankets)
    }

    open spec fn read(b: Seq<u8>) -> Option<(QueryValuesReply, Seq<u8>)> {
        match read_block::<ValueEntry>(b) {
            Some((entries, b1)) => match read_block::<BlanketEntry>(b1) {
                Some((blankets, b2)) => Some((QueryValuesReply { entries, blankets }, b2)),
                None => None,
            },
            None => None,
        }
    }

    proof fn read_back(self, rest: Seq<u8>) {
        let b1 = block_bytes(self.blankets) + rest;
        assert(self.bytes() + rest =~= block_bytes(self.entries) + b1);
        block_round_trip(self.entries, b1);
        block_round_trip(self.blankets, rest);
    }
}

} // verus!
