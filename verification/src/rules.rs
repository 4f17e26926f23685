//! When a reply is refused, in the caller's own terms.
//!
//! The laws of this module spell out, over the structures, pointers and counts that the
//! caller hands over, which replies are refused with `EINVAL`; every other one is built,
//! unless it is too long or no memory can be had.
use vstd::prelude::*;

use crate::c_array::{c_array_valid, c_array_view};
use crate::completeness::{
    entries_ask, lookup_metadata_asks, lookup_metadata_ok, metadata_guids, path_targets,
};
use crate::entries::{
    array_accepted, array_records, array_valid, path_targets_ok, rsi_blanket_entry,
    rsi_key_metadata, rsi_path_entry, rsi_value_entry, CRecord,
};
use crate::errno::Errno;
use crate::guids::{is_nil, unique_nonzero, Guid};
use crate::records::{DeleteLayerReply, WireRecord};
use crate::request::rsi_request;
use crate::response::{
    asks_for, guid_chunks, is_reply, lemma_guid_of, lookup_accepted, lookup_reply, orphans_accepted,
    orphans_valid, orphans_view, query_values_reply, read_key_accepted, read_key_reply,
};
use crate::vocabulary::{RsiAbi, RSI_PATH_TARGET_GUID};

verus! {

/// One of the first `n` entries names the key `g`.
pub open spec fn an_entry_names(e: Seq<rsi_path_entry>, n: int, g: Guid) -> bool {
    exists|i: int| 0 <= i < n && (#[trigger] e[i]).target_type == 0 && e[i].target_guid == g
}

/// One of the first `n` records is about the key `g`.
pub open spec fn a_record_is_about(m: Seq<rsi_key_metadata>, n: int, g: Guid) -> bool {
    exists|j: int| 0 <= j < n && (#[trigger] m[j]).guid == g
}

/// The nil GUID is sixteen zero bytes.
pub proof fn nil_is_all_zero(guid: Guid)
    ensures
        is_nil(guid) <==> guid == [0u8; 16usize],
{
    if is_nil(guid) {
        assert(guid =~= [0u8; 16usize]);
    }
}

/// When an array of path entries may go into a reply.
pub proof fn path_array_may_go_out(ptr: Option<&[rsi_path_entry]>, count: u32)
    requires
        array_valid(ptr, count),
    ensures
        array_accepted(ptr, count) <==> {
            let s = ptr->0@;
            &&& count > 0 ==> ptr is Some
            &&& forall|i: int|
                0 <= i < count ==> {
                    &&& (#[trigger] s[i]).layer_len > 0 ==> s[i].layer is Some
                    &&& s[i].target_type == 0 || (s[i].target_type == 1
                        && s[i].target_guid == [0u8; 16usize])
                }
        },
{
    let s = ptr->0@;
    let view = c_array_view(ptr, count);
    if count > 0 && ptr is Some {
        assert(view.len() == count);
        if array_accepted(ptr, count) {
            assert forall|i: int| 0 <= i < count implies {
                &&& (#[trigger] s[i]).layer_len > 0 ==> s[i].layer is Some
                &&& s[i].target_type == 0 || (s[i].target_type == 1
                    && s[i].target_guid == [0u8; 16usize])
            } by {
                assert(view[i].accepted());
                nil_is_all_zero(s[i].target_guid);
            }
        }
        if forall|i: int|
            0 <= i < count ==> {
                &&& (#[trigger] s[i]).layer_len > 0 ==> s[i].layer is Some
                &&& s[i].target_type == 0 || (s[i].target_type == 1
                    && s[i].target_guid == [0u8; 16usize])
            } {
            assert forall|i: int| 0 <= i < view.len() implies (#[trigger] view[i]).accepted() by {
                assert(s[i] == view[i]);
                nil_is_all_zero(s[i].target_guid);
            }
        }
    }
}

/// When an array of metadata records may go into a reply.
pub proof fn metadata_array_may_go_out(ptr: Option<&[rsi_key_metadata]>, count: u32)
    requires
        array_valid(ptr, count),
    ensures
        array_accepted(ptr, count) <==> {
            let s = ptr->0@;
            &&& count > 0 ==> ptr is Some
            &&& forall|i: int|
                0 <= i < count ==> {
                    &&& (#[trigger] s[i]).sd_len > 0 ==> s[i].sd is Some
                    &&& s[i].volatile_key == 0 || s[i].volatile_key == 1
                    &&& s[i].symlink == 0 || s[i].symlink == 1
                }
        },
{
    let s = ptr->0@;
    let view = c_array_view(ptr, count);
    if count > 0 && ptr is Some {
        assert(view.len() == count);
        if array_accepted(ptr, count) {
            assert forall|i: int| 0 <= i < count implies {
                &&& (#[trigger] s[i]).sd_len > 0 ==> s[i].sd is Some
                &&& s[i].volatile_key == 0 || s[i].volatile_key == 1
                &&& s[i].symlink == 0 || s[i].symlink == 1
            } by {
                assert(view[i].accepted());
            }
        }
        if forall|i: int|
            0 <= i < count ==> {
                &&& (#[trigger] s[i]).sd_len > 0 ==> s[i].sd is Some
                &&& s[i].volatile_key == 0 || s[i].volatile_key == 1
                &&& s[i].symlink == 0 || s[i].symlink == 1
            } {
            assert forall|i: int| 0 <= i < view.len() implies (#[trigger] view[i]).accepted() by {
                assert(s[i] == view[i]);
            }
        }
    }
}

/// When an array of value entries may go into a reply.
pub proof fn value_array_may_go_out(ptr: Option<&[rsi_value_entry]>, count: u32)
    requires
        array_valid(ptr, count),
    ensures
        array_accepted(ptr, count) <==> {
            let s = ptr->0@;
            &&& count > 0 ==> ptr is Some
            &&& forall|i: int|
                0 <= i < count ==> {
                    &&& (#[trigger] s[i]).value_name_len > 0 ==> s[i].value_name is Some
                    &&& s[i].layer_name_len > 0 ==> s[i].layer_name is Some
                    &&& s[i].data_len > 0 ==> s[i].data is Some
                }
        },
{
    let s = ptr->0@;
    let view = c_array_view(ptr, count);
    if count > 0 && ptr is Some {
        assert(view.len() == count);
        if array_accepted(ptr, count) {
            assert forall|i: int| 0 <= i < count implies {
                &&& (#[trigger] s[i]).value_name_len > 0 ==> s[i].value_name is Some
                &&& s[i].layer_name_len > 0 ==> s[i].layer_name is Some
                &&& s[i].data_len > 0 ==> s[i].data is Some
            } by {
                assert(view[i].accepted());
            }
        }
        if forall|i: int|
            0 <= i < count ==> {
                &&& (#[trigger] s[i]).value_name_len > 0 ==> s[i].value_name is Some
                &&& s[i].layer_name_len > 0 ==> s[i].layer_name is Some
                &&& s[i].data_len > 0 ==> s[i].data is Some
            } {
            assert forall|i: int| 0 <= i < view.len() implies (#[trigger] view[i]).accepted() by {
                assert(s[i] == view[i]);
            }
        }
    }
}

/// When an array of blanket tombstones may go into a reply.
pub proof fn blanket_array_may_go_out(ptr: Option<&[rsi_blanket_entry]>, count: u32)
    requires
        array_valid(ptr, count),
    ensures
        array_accepted(ptr, count) <==> {
            let s = ptr->0@;
            &&& count > 0 ==> ptr is Some
            &&& forall|i: int|
                0 <= i < count ==> {
                    &&& (#[trigger] s[i]).layer_name_len > 0 ==> s[i].layer_name is Some
                }
        },
{
    let s = ptr->0@;
    let view = c_array_view(ptr, count);
    if count > 0 && ptr is Some {
        assert(view.len() == count);
        if array_accepted(ptr, count) {
            assert forall|i: int| 0 <= i < count implies {
                &&& (#[trigger] s[i]).layer_name_len > 0 ==> s[i].layer_name is Some
            } by {
                assert(view[i].accepted());
            }
        }
        if forall|i: int|
            0 <= i < count ==> {
                &&& (#[trigger] s[i]).layer_name_len > 0 ==> s[i].layer_name is Some
            } {
            assert forall|i: int| 0 <= i < view.len() implies (#[trigger] view[i]).accepted() by {
                assert(s[i] == view[i]);
            }
        }
    }
}

pub proof fn lemma_unique(m: Seq<rsi_key_metadata>, n: int, guids: Seq<Guid>)
    requires
        guids.len() == n,
        forall|j: int| 0 <= j < n ==> #[trigger] guids[j] == m[j].guid,
    ensures
        unique_nonzero(guids) <==> {
            &&& forall|j: int| 0 <= j < n ==> (#[trigger] m[j]).guid != [0u8; 16usize]
            &&& forall|j: int, k: int|
                0 <= j < k < n ==> (#[trigger] m[j]).guid != (#[trigger] m[k]).guid
        },
{
    if unique_nonzero(guids) {
        assert forall|j: int| 0 <= j < n implies (#[trigger] m[j]).guid != [0u8; 16usize] by {
            nil_is_all_zero(guids[j]);
        }
        assert forall|j: int, k: int| 0 <= j < k < n implies (#[trigger] m[j]).guid != (
        #[trigger] m[k]).guid by {
            assert(guids[j] != guids[k]);
        }
    }
    if {
        &&& forall|j: int| 0 <= j < n ==> (#[trigger] m[j]).guid != [0u8; 16usize]
        &&& forall|j: int, k: int|
            0 <= j < k < n ==> (#[trigger] m[j]).guid != (#[trigger] m[k]).guid
    } {
        assert forall|j: int| 0 <= j < guids.len() implies !is_nil(#[trigger] guids[j]) by {
            assert(guids[j] == m[j].guid);
            nil_is_all_zero(guids[j]);
        }
        assert forall|j: int, k: int|
            0 <= j < guids.len() && 0 <= k < guids.len() && j != k implies guids[j] != guids[k] by {
            assert(guids[j] == m[j].guid && guids[k] == m[k].guid);
        }
        assert(guids.no_duplicates());
    }
}

pub proof fn lemma_about(m: Seq<rsi_key_metadata>, n: int, guids: Seq<Guid>, g: Guid)
    requires
        guids.len() == n,
        forall|j: int| 0 <= j < n ==> #[trigger] guids[j] == m[j].guid,
    ensures
        guids.to_set().contains(g) <==> a_record_is_about(m, n, g),
{
    if guids.contains(g) {
        let j = choose|j: int| 0 <= j < guids.len() && guids[j] == g;
        assert(m[j].guid == g);
    }
    if a_record_is_about(m, n, g) {
        let j = choose|j: int| 0 <= j < n && (#[trigger] m[j]).guid == g;
        assert(guids[j] == g);
    }
}

pub proof fn lemma_path_targets_ok(entries: Option<&[rsi_path_entry]>, count: u32)
    requires
        c_array_valid(entries, count),
    ensures
        path_targets_ok(entries, count) <==> {
            let e = entries->0@;
            &&& count > 0 ==> entries is Some
            &&& forall|i: int|
                0 <= i < count ==> (#[trigger] e[i]).target_type == 0 || (e[i].target_type == 1
                    && e[i].target_guid == [0u8; 16usize])
        },
{
    let e = entries->0@;
    if count > 0 && entries is Some {
        let ev = c_array_view(entries, count);
        assert(ev.len() == count);
        if path_targets_ok(entries, count) {
            assert forall|i: int| 0 <= i < count implies (#[trigger] e[i]).target_type == 0 || (
            e[i].target_type == 1 && e[i].target_guid == [0u8; 16usize]) by {
                assert(ev[i].target_ok());
                nil_is_all_zero(e[i].target_guid);
            }
        }
        if forall|i: int|
    0 <= i < count ==> (#[trigger] e[i]).target_type == 0 || (e[i].target_type == 1
        && e[i].target_guid == [0u8; 16usize]) {
            assert forall|i: int| 0 <= i < ev.len() implies (#[trigger] ev[i]).target_ok() by {
                assert(ev[i] == e[i]);
                nil_is_all_zero(e[i].target_guid);
            }
        }
    }
}

pub proof fn lemma_path_target(entries: Option<&[rsi_path_entry]>, count: u32, g: Guid)
    requires
        c_array_valid(entries, count),
        count > 0 ==> entries is Some,
    ensures
        path_targets(array_records(entries, count)).contains(g) <==> an_entry_names(
            entries->0@,
            count as int,
            g,
        ),
{
    let e = entries->0@;
    let er = array_records(entries, count);
    assert(er.len() == count);
    if path_targets(er).contains(g) {
        let i = choose|i: int|
            0 <= i < er.len() && (#[trigger] er[i]).target_type == RSI_PATH_TARGET_GUID
                && er[i].target_guid == g;
        assert(e[i].target_type == 0 && e[i].target_guid == g);
    }
    if an_entry_names(e, count as int, g) {
        let i = choose|i: int|
            0 <= i < count && (#[trigger] e[i]).target_type == 0 && e[i].target_guid == g;
        assert(er[i].target_type == 0 && er[i].target_guid == g);
    }
}

proof fn lemma_lookup_rules(
    entries: Option<&[rsi_path_entry]>,
    entry_count: u32,
    metadata: Option<&[rsi_key_metadata]>,
    metadata_count: u32,
)
    requires
        c_array_valid(entries, entry_count),
        c_array_valid(metadata, metadata_count),
        lookup_metadata_ok(entries, entry_count, metadata, metadata_count),
    ensures
        ({
            let e = entries->0@;
            let m = metadata->0@;
            &&& entry_count > 0 ==> entries is Some
            &&& metadata_count > 0 ==> metadata is Some
            &&& forall|i: int|
                0 <= i < entry_count ==> (#[trigger] e[i]).target_type == 0
                    || (e[i].target_type == 1
                    && e[i].target_guid == [0u8; 16usize])
            &&& forall|j: int| 0 <= j < metadata_count ==> (#[trigger] m[j]).guid != [0u8; 16usize]
            &&& forall|j: int, k: int|
                0 <= j < k < metadata_count ==> (#[trigger] m[j]).guid != (#[trigger] m[k]).guid
            &&& forall|g: Guid|
                #![trigger an_entry_names(e, entry_count as int, g)]
                #![trigger a_record_is_about(m, metadata_count as int, g)]
                an_entry_names(e, entry_count as int, g) <==> a_record_is_about(m,
                    metadata_count as int, g)
        }),
{
    let e = entries->0@;
    let m = metadata->0@;
    let targets = path_targets(array_records(entries, entry_count));
    let guids = metadata_guids(array_records(metadata, metadata_count));
    let n = metadata_count as int;
    lemma_path_targets_ok(entries, entry_count);
    assert(guids.len() == n);
    lemma_unique(m, n, guids);
    assert forall|g: Guid|
        #![trigger an_entry_names(e, entry_count as int, g)]
        #![trigger a_record_is_about(m, metadata_count as int, g)]
        an_entry_names(e, entry_count as int, g) <==> a_record_is_about(
            m,
            metadata_count as int,
            g,
        ) by {
        lemma_path_target(entries, entry_count, g);
        lemma_about(m, n, guids, g);
        assert(guids.to_set().contains(g) <==> targets.contains(g));
    }
}

proof fn lemma_lookup_ok(
    entries: Option<&[rsi_path_entry]>,
    entry_count: u32,
    metadata: Option<&[rsi_key_metadata]>,
    metadata_count: u32,
)
    requires
        c_array_valid(entries, entry_count),
        c_array_valid(metadata, metadata_count),
        ({
            let e = entries->0@;
            let m = metadata->0@;
            &&& entry_count > 0 ==> entries is Some
            &&& metadata_count > 0 ==> metadata is Some
            &&& forall|i: int|
                0 <= i < entry_count ==> (#[trigger] e[i]).target_type == 0
                    || (e[i].target_type == 1
                    && e[i].target_guid == [0u8; 16usize])
            &&& forall|j: int| 0 <= j < metadata_count ==> (#[trigger] m[j]).guid != [0u8; 16usize]
            &&& forall|j: int, k: int|
                0 <= j < k < metadata_count ==> (#[trigger] m[j]).guid != (#[trigger] m[k]).guid
            &&& forall|g: Guid|
                #![trigger an_entry_names(e, entry_count as int, g)]
                #![trigger a_record_is_about(m, metadata_count as int, g)]
                an_entry_names(e, entry_count as int, g) <==> a_record_is_about(m,
                    metadata_count as int, g)
        }),
    ensures
        lookup_metadata_ok(entries, entry_count, metadata, metadata_count),
{
    let e = entries->0@;
    let m = metadata->0@;
    let targets = path_targets(array_records(entries, entry_count));
    let guids = metadata_guids(array_records(metadata, metadata_count));
    let n = metadata_count as int;
    lemma_path_targets_ok(entries, entry_count);
    assert(guids.len() == n);
    lemma_unique(m, n, guids);
    assert forall|g: Guid| guids.to_set().contains(g) == targets.contains(g) by {
        lemma_path_target(entries, entry_count, g);
        lemma_about(m, n, guids, g);
        assert(an_entry_names(e, entry_count as int, g) <==> a_record_is_about(m, n, g));
    }
    assert(guids.to_set() =~= targets);
}

/// The metadata of a lookup is in order exactly where each target is, no record is about
/// the nil GUID, no two are about the same key, each key that an entry names has a record,
/// and each record is about a key that an entry names.
pub proof fn lookup_metadata_in_order(
    entries: Option<&[rsi_path_entry]>,
    entry_count: u32,
    metadata: Option<&[rsi_key_metadata]>,
    metadata_count: u32,
)
    requires
        c_array_valid(entries, entry_count),
        c_array_valid(metadata, metadata_count),
    ensures
        lookup_metadata_ok(entries, entry_count, metadata, metadata_count) <==> {
            let e = entries->0@;
            let m = metadata->0@;
            &&& entry_count > 0 ==> entries is Some
            &&& metadata_count > 0 ==> metadata is Some
            &&& forall|i: int|
                0 <= i < entry_count ==> (#[trigger] e[i]).target_type == 0
                    || (e[i].target_type == 1
                    && e[i].target_guid == [0u8; 16usize])
            &&& forall|j: int| 0 <= j < metadata_count ==> (#[trigger] m[j]).guid != [0u8; 16usize]
            &&& forall|j: int, k: int|
                0 <= j < k < metadata_count ==> (#[trigger] m[j]).guid != (#[trigger] m[k]).guid
            &&& forall|g: Guid|
                #![trigger an_entry_names(e, entry_count as int, g)]
                #![trigger a_record_is_about(m, metadata_count as int, g)]
                an_entry_names(e, entry_count as int, g) <==> a_record_is_about(m,
                    metadata_count as int, g)
        },
{
    let e = entries->0@;
    let m = metadata->0@;
    if lookup_metadata_ok(entries, entry_count, metadata, metadata_count) {
        lemma_lookup_rules(entries, entry_count, metadata, metadata_count);
    } else if {
        &&& entry_count > 0 ==> entries is Some
        &&& metadata_count > 0 ==> metadata is Some
        &&& forall|i: int|
            0 <= i < entry_count ==> (#[trigger] e[i]).target_type == 0 || (e[i].target_type == 1
                && e[i].target_guid == [0u8; 16usize])
        &&& forall|j: int| 0 <= j < metadata_count ==> (#[trigger] m[j]).guid != [0u8; 16usize]
        &&& forall|j: int, k: int|
            0 <= j < k < metadata_count ==> (#[trigger] m[j]).guid != (#[trigger] m[k]).guid
        &&& forall|g: Guid|
            #![trigger an_entry_names(e, entry_count as int, g)]
            #![trigger a_record_is_about(m, metadata_count as int, g)]
            an_entry_names(e, entry_count as int, g) <==> a_record_is_about(m,
                metadata_count as int, g)
    } {
        lemma_lookup_ok(entries, entry_count, metadata, metadata_count);
    }
}

proof fn lemma_lookup_accepted_rules(
    entries: Option<&[rsi_path_entry]>,
    entry_count: u32,
    metadata: Option<&[rsi_key_metadata]>,
    metadata_count: u32,
)
    requires
        array_valid(entries, entry_count),
        array_valid(metadata, metadata_count),
        lookup_accepted(entries, entry_count, metadata, metadata_count),
    ensures
        ({
            let e = entries->0@;
            let m = metadata->0@;
            &&& entry_count > 0 ==> entries is Some
            &&& metadata_count > 0 ==> metadata is Some
            &&& forall|i: int|
                0 <= i < entry_count ==> {
                    &&& (#[trigger] e[i]).layer_len > 0 ==> e[i].layer is Some
                    &&& e[i].target_type == 0 || (e[i].target_type == 1
                        && e[i].target_guid == [0u8; 16usize])
                }
            &&& forall|i: int|
                0 <= i < metadata_count ==> {
                    &&& (#[trigger] m[i]).sd_len > 0 ==> m[i].sd is Some
                    &&& m[i].volatile_key == 0 || m[i].volatile_key == 1
                    &&& m[i].symlink == 0 || m[i].symlink == 1
                }
            &&& forall|j: int| 0 <= j < metadata_count ==> (#[trigger] m[j]).guid != [0u8; 16usize]
            &&& forall|j: int, k: int|
                0 <= j < k < metadata_count ==> (#[trigger] m[j]).guid != (#[trigger] m[k]).guid
            &&& forall|g: Guid|
                #![trigger an_entry_names(e, entry_count as int, g)]
                #![trigger a_record_is_about(m, metadata_count as int, g)]
                an_entry_names(e, entry_count as int, g) <==> a_record_is_about(m,
                    metadata_count as int, g)
        }),
{
    path_array_may_go_out(entries, entry_count);
    metadata_array_may_go_out(metadata, metadata_count);
    lemma_lookup_rules(entries, entry_count, metadata, metadata_count);
}

proof fn lemma_lookup_accepted(
    entries: Option<&[rsi_path_entry]>,
    entry_count: u32,
    metadata: Option<&[rsi_key_metadata]>,
    metadata_count: u32,
)
    requires
        array_valid(entries, entry_count),
        array_valid(metadata, metadata_count),
        ({
            let e = entries->0@;
            let m = metadata->0@;
            &&& entry_count > 0 ==> entries is Some
            &&& metadata_count > 0 ==> metadata is Some
            &&& forall|i: int|
                0 <= i < entry_count ==> {
                    &&& (#[trigger] e[i]).layer_len > 0 ==> e[i].layer is Some
                    &&& e[i].target_type == 0 || (e[i].target_type == 1
                        && e[i].target_guid == [0u8; 16usize])
                }
            &&& forall|i: int|
                0 <= i < metadata_count ==> {
                    &&& (#[trigger] m[i]).sd_len > 0 ==> m[i].sd is Some
                    &&& m[i].volatile_key == 0 || m[i].volatile_key == 1
                    &&& m[i].symlink == 0 || m[i].symlink == 1
                }
            &&& forall|j: int| 0 <= j < metadata_count ==> (#[trigger] m[j]).guid != [0u8; 16usize]
            &&& forall|j: int, k: int|
                0 <= j < k < metadata_count ==> (#[trigger] m[j]).guid != (#[trigger] m[k]).guid
            &&& forall|g: Guid|
                #![trigger an_entry_names(e, entry_count as int, g)]
                #![trigger a_record_is_about(m, metadata_count as int, g)]
                an_entry_names(e, entry_count as int, g) <==> a_record_is_about(m,
                    metadata_count as int, g)
        }),
    ensures
        lookup_accepted(entries, entry_count, metadata, metadata_count),
{
    let e = entries->0@;
    path_array_may_go_out(entries, entry_count);
    metadata_array_may_go_out(metadata, metadata_count);
    lemma_lookup_ok(entries, entry_count, metadata, metadata_count);
}

/// A LOOKUP is answered, unless the frame is too long or no memory can be had, exactly
/// where it is what the request asks for, every pointer is there that has something behind
/// it, every target and every flag is in order, and the metadata is about exactly the keys
/// that the entries name. It is refused with `EINVAL` everywhere else.
pub proof fn lookup_is_refused_for_cause(
    abi: &RsiAbi,
    op_known: bool,
    req: Option<&rsi_request>,
    entries: Option<&[rsi_path_entry]>,
    entry_count: u32,
    metadata: Option<&[rsi_key_metadata]>,
    metadata_count: u32,
    r: Result<Vec<u8>, Errno>,
)
    requires
        array_valid(entries, entry_count),
        array_valid(metadata, metadata_count),
        is_reply(
            r,
            req,
            asks_for(req, abi.lookup) && op_known && lookup_accepted(
                entries,
                entry_count,
                metadata,
                metadata_count,
            ),
            asks_for(req, abi.lookup) && (lookup_metadata_asks(
                entries,
                entry_count,
                metadata,
                metadata_count,
            ) || (op_known && lookup_accepted(entries, entry_count, metadata, metadata_count))),
            abi.ok,
            lookup_reply(entries, entry_count, metadata, metadata_count).bytes(),
        ),
    ensures
        r matches Err(e) ==> e == Errno::EINVAL || e == Errno::ENOMEM || e == Errno::EOVERFLOW,
        r == Err::<Vec<u8>, Errno>(Errno::ENOMEM) || (r == Err::<Vec<u8>,
            Errno>(Errno::EINVAL) <==> !{
            let e = entries->0@;
            let m = metadata->0@;
            &&& req is Some && req->0.op_code == abi.lookup as u16
            &&& op_known
            &&& entry_count > 0 ==> entries is Some
            &&& metadata_count > 0 ==> metadata is Some
            &&& forall|i: int|
                0 <= i < entry_count ==> {
                    &&& (#[trigger] e[i]).layer_len > 0 ==> e[i].layer is Some
                    &&& e[i].target_type == 0 || (e[i].target_type == 1
                        && e[i].target_guid == [0u8; 16usize])
                }
            &&& forall|i: int|
                0 <= i < metadata_count ==> {
                    &&& (#[trigger] m[i]).sd_len > 0 ==> m[i].sd is Some
                    &&& m[i].volatile_key == 0 || m[i].volatile_key == 1
                    &&& m[i].symlink == 0 || m[i].symlink == 1
                }
            &&& forall|j: int| 0 <= j < metadata_count ==> (#[trigger] m[j]).guid != [0u8; 16usize]
            &&& forall|j: int, k: int|
                0 <= j < k < metadata_count ==> (#[trigger] m[j]).guid != (#[trigger] m[k]).guid
            &&& forall|g: Guid|
                #![trigger an_entry_names(e, entry_count as int, g)]
                #![trigger a_record_is_about(m, metadata_count as int, g)]
                an_entry_names(e, entry_count as int, g) <==> a_record_is_about(m,
                    metadata_count as int, g)
        }),
{
    let e = entries->0@;
    let m = metadata->0@;
    if lookup_accepted(entries, entry_count, metadata, metadata_count) {
        lemma_lookup_accepted_rules(entries, entry_count, metadata, metadata_count);
    } else if {
        &&& entry_count > 0 ==> entries is Some
        &&& metadata_count > 0 ==> metadata is Some
        &&& forall|i: int|
            0 <= i < entry_count ==> {
                &&& (#[trigger] e[i]).layer_len > 0 ==> e[i].layer is Some
                &&& e[i].target_type == 0 || (e[i].target_type == 1
                    && e[i].target_guid == [0u8; 16usize])
            }
        &&& forall|i: int|
            0 <= i < metadata_count ==> {
                &&& (#[trigger] m[i]).sd_len > 0 ==> m[i].sd is Some
                &&& m[i].volatile_key == 0 || m[i].volatile_key == 1
                &&& m[i].symlink == 0 || m[i].symlink == 1
            }
        &&& forall|j: int| 0 <= j < metadata_count ==> (#[trigger] m[j]).guid != [0u8; 16usize]
        &&& forall|j: int, k: int|
            0 <= j < k < metadata_count ==> (#[trigger] m[j]).guid != (#[trigger] m[k]).guid
        &&& forall|g: Guid|
            #![trigger an_entry_names(e, entry_count as int, g)]
            #![trigger a_record_is_about(m, metadata_count as int, g)]
            an_entry_names(e, entry_count as int, g) <==> a_record_is_about(m,
                metadata_count as int, g)
    } {
        lemma_lookup_accepted(entries, entry_count, metadata, metadata_count);
    }
}

/// A QUERY_VALUES is refused with `EINVAL` exactly where it is not what the request asks
/// for, or a pointer is missing that has something behind it, whatever memory there is.
pub proof fn query_values_is_refused_for_cause(
    abi: &RsiAbi,
    op_known: bool,
    req: Option<&rsi_request>,
    entries: Option<&[rsi_value_entry]>,
    entry_count: u32,
    blankets: Option<&[rsi_blanket_entry]>,
    blanket_count: u32,
    r: Result<Vec<u8>, Errno>,
)
    requires
        array_valid(entries, entry_count),
        array_valid(blankets, blanket_count),
        is_reply(
            r,
            req,
            asks_for(req, abi.query_values) && op_known && array_accepted(entries, entry_count)
                && array_accepted(blankets, blanket_count),
            asks_for(req, abi.query_values) && op_known && array_accepted(entries, entry_count)
                && array_accepted(blankets, blanket_count),
            abi.ok,
            query_values_reply(entries, entry_count, blankets, blanket_count).bytes(),
        ),
    ensures
        r matches Err(e) ==> e == Errno::EINVAL || e == Errno::ENOMEM || e == Errno::EOVERFLOW,
        r == Err::<Vec<u8>, Errno>(Errno::EINVAL) <==> !{
            let s = entries->0@;
            let u = blankets->0@;
            &&& req is Some && req->0.op_code == abi.query_values as u16
            &&& op_known
            &&& entry_count > 0 ==> entries is Some
            &&& blanket_count > 0 ==> blankets is Some
            &&& forall|i: int|
                0 <= i < entry_count ==> {
                    &&& (#[trigger] s[i]).value_name_len > 0 ==> s[i].value_name is Some
                    &&& s[i].layer_name_len > 0 ==> s[i].layer_name is Some
                    &&& s[i].data_len > 0 ==> s[i].data is Some
                }
            &&& forall|i: int|
                0 <= i < blanket_count ==> {
                    &&& (#[trigger] u[i]).layer_name_len > 0 ==> u[i].layer_name is Some
                }
        },
{
    value_array_may_go_out(entries, entry_count);
    blanket_array_may_go_out(blankets, blanket_count);
}

/// A READ_KEY is refused with `EINVAL` exactly where it is not what the request asks for,
/// the parent or a pointer that has something behind it is missing, or a flag is neither 0
/// nor 1, whatever memory there is.
pub proof fn read_key_is_refused_for_cause(
    abi: &RsiAbi,
    op_known: bool,
    req: Option<&rsi_request>,
    name: Option<&[u8]>,
    name_len: u32,
    parent_guid: Option<&Guid>,
    sd: Option<&[u8]>,
    sd_len: u32,
    volatile_key: u8,
    symlink: u8,
    last_write_time: u64,
    r: Result<Vec<u8>, Errno>,
)
    requires
        is_reply(
            r,
            req,
            asks_for(req, abi.read_key) && op_known && read_key_accepted(
                name,
                name_len,
                parent_guid,
                sd,
                sd_len,
                volatile_key,
                symlink,
            ),
            asks_for(req, abi.read_key) && op_known && read_key_accepted(
                name,
                name_len,
                parent_guid,
                sd,
                sd_len,
                volatile_key,
                symlink,
            ),
            abi.ok,
            read_key_reply(
                name,
                name_len,
                *parent_guid->0,
                sd,
                sd_len,
                volatile_key,
                symlink,
                last_write_time,
            ).bytes(),
        ),
    ensures
        r matches Err(e) ==> e == Errno::EINVAL || e == Errno::ENOMEM || e == Errno::EOVERFLOW,
        r == Err::<Vec<u8>, Errno>(Errno::EINVAL) <==> !{
            &&& req is Some && req->0.op_code == abi.read_key as u16
            &&& op_known
            &&& parent_guid is Some
            &&& name_len > 0 ==> name is Some
            &&& sd_len > 0 ==> sd is Some
            &&& volatile_key == 0 || volatile_key == 1
            &&& symlink == 0 || symlink == 1
        },
{
}

/// The sixteen bytes of the `i`th GUID of a run.
pub open spec fn whole(o: Seq<u8>, i: int) -> Seq<u8> {
    o.subrange(16 * i, 16 * i + 16)
}

proof fn lemma_orphan(o: Seq<u8>, n: int, i: int)
    requires
        0 <= i < n,
        16 * n <= o.len(),
    ensures
        guid_chunks(o.take(16 * n)).len() == n,
        guid_chunks(o.take(16 * n))[i]@ == whole(o, i),
{
    let bytes = o.take(16 * n);
    assert(bytes.subrange(16 * i, 16 * i + 16) =~= whole(o, i));
    lemma_guid_of(whole(o, i));
}

proof fn lemma_orphans(o: Seq<u8>, n: int, guids: Seq<Guid>)
    requires
        guids.len() == n,
        forall|i: int| 0 <= i < n ==> (#[trigger] guids[i])@ == whole(o, i),
    ensures
        unique_nonzero(guids) <==> {
            &&& forall|i: int| 0 <= i < n ==> #[trigger] whole(o, i) != [0u8; 16usize]@
            &&& forall|i: int, j: int|
                0 <= i < j < n ==> #[trigger] whole(o, i) != #[trigger] whole(o, j)
        },
{
    assert forall|i: int| 0 <= i < n implies (is_nil(#[trigger] guids[i]) <==> whole(o, i)
        == [0u8; 16usize]@) by {
        nil_is_all_zero(guids[i]);
        if whole(o, i) == [0u8; 16usize]@ {
            assert(guids[i] =~= [0u8; 16usize]);
        }
    }
    assert forall|i: int, j: int| 0 <= i < n && 0 <= j < n implies (#[trigger] guids[i]
        == #[trigger] guids[j] <==> whole(o, i) == whole(o, j)) by {
        if whole(o, i) == whole(o, j) {
            assert(guids[i] =~= guids[j]);
        }
    }
    if unique_nonzero(guids) {
        assert forall|i: int| 0 <= i < n implies #[trigger] whole(o, i) != [0u8; 16usize]@ by {
            assert(!is_nil(guids[i]));
        }
        assert forall|i: int, j: int| 0 <= i < j < n implies #[trigger] whole(o, i)
            != #[trigger] whole(o, j) by {
            assert(guids[i] != guids[j]);
        }
    }
    if {
        &&& forall|i: int| 0 <= i < n ==> #[trigger] whole(o, i) != [0u8; 16usize]@
        &&& forall|i: int, j: int|
            0 <= i < j < n ==> #[trigger] whole(o, i) != #[trigger] whole(o, j)
    } {
        assert forall|i: int| 0 <= i < guids.len() implies !is_nil(#[trigger] guids[i]) by {
            assert(whole(o, i) != [0u8; 16usize]@);
        }
        assert forall|i: int, j: int|
            0 <= i < guids.len() && 0 <= j < guids.len() && i != j implies guids[i] != guids[j] by {
            assert(whole(o, i) != whole(o, j));
        }
        assert(guids.no_duplicates());
    }
}

/// A DELETE_LAYER is answered, unless the frame is too long or no memory can be had,
/// exactly where it is what the request asks for, and the orphaned GUIDs are there, none of
/// them nil and no two the same. It is refused with `EINVAL` everywhere else.
pub proof fn delete_layer_is_refused_for_cause(
    abi: &RsiAbi,
    op_known: bool,
    req: Option<&rsi_request>,
    orphaned_guids: Option<&[u8]>,
    orphaned_count: u32,
    r: Result<Vec<u8>, Errno>,
)
    requires
        orphans_valid(orphaned_guids, orphaned_count),
        16 * orphaned_count <= usize::MAX,
        is_reply(
            r,
            req,
            asks_for(req, abi.delete_layer) && op_known && orphans_accepted(
                orphaned_guids,
                orphaned_count,
            ),
            asks_for(req, abi.delete_layer) && (if orphaned_count == 0 {
                op_known
            } else {
                orphaned_guids is Some
            }),
            abi.ok,
            (DeleteLayerReply {
                orphaned: guid_chunks(orphans_view(orphaned_guids, orphaned_count)),
            }).bytes(),
        ),
    ensures
        r matches Err(e) ==> e == Errno::EINVAL || e == Errno::ENOMEM || e == Errno::EOVERFLOW,
        r == Err::<Vec<u8>, Errno>(Errno::ENOMEM) || (r == Err::<Vec<u8>,
            Errno>(Errno::EINVAL) <==> !{
            let o = orphaned_guids->0@;
            &&& req is Some && req->0.op_code == abi.delete_layer as u16
            &&& op_known
            &&& orphaned_count > 0 ==> orphaned_guids is Some
            &&& forall|i: int| 0 <= i < orphaned_count ==> #[trigger] whole(o, i) != [0u8; 16usize]@
            &&& forall|i: int, j: int|
                0 <= i < j < orphaned_count ==> #[trigger] whole(o, i) != #[trigger] whole(o, j)
        }),
        r == Err::<Vec<u8>, Errno>(Errno::ENOMEM) ==> req is Some
            && req->0.op_code == abi.delete_layer as u16 && (orphaned_count
            > 0 ==> orphaned_guids is Some),
{
    let o = orphaned_guids->0@;
    let n = orphaned_count as int;
    if orphaned_count > 0 && orphaned_guids is Some {
        let guids = guid_chunks(orphans_view(orphaned_guids, orphaned_count));
        lemma_orphan(o, n, 0);
        assert forall|i: int| 0 <= i < n implies (#[trigger] guids[i])@ == whole(o, i) by {
            lemma_orphan(o, n, i);
        }
        lemma_orphans(o, n, guids);
    }
}

/// Nothing is asked of the allocator to refuse a LOOKUP reply to another request, one with
/// a NULL array, or one whose first entries name no key and run into a target that is not
/// in order: that is `EINVAL`, whatever memory there is.
pub proof fn lookup_is_refused_without_memory(
    abi: &RsiAbi,
    op_known: bool,
    req: Option<&rsi_request>,
    entries: Option<&[rsi_path_entry]>,
    entry_count: u32,
    metadata: Option<&[rsi_key_metadata]>,
    metadata_count: u32,
    r: Result<Vec<u8>, Errno>,
    i: int,
)
    requires
        array_valid(entries, entry_count),
        array_valid(metadata, metadata_count),
        is_reply(
            r,
            req,
            asks_for(req, abi.lookup) && op_known && lookup_accepted(
                entries,
                entry_count,
                metadata,
                metadata_count,
            ),
            asks_for(req, abi.lookup) && (lookup_metadata_asks(
                entries,
                entry_count,
                metadata,
                metadata_count,
            ) || (op_known && lookup_accepted(entries, entry_count, metadata, metadata_count))),
            abi.ok,
            lookup_reply(entries, entry_count, metadata, metadata_count).bytes(),
        ),
    ensures
        !(req is Some && req->0.op_code == abi.lookup as u16) ==> r == Err::<Vec<u8>,
            Errno>(Errno::EINVAL),
        entry_count > 0 && entries is None ==> r == Err::<Vec<u8>, Errno>(Errno::EINVAL),
        ({
            let e = entries->0@;
            &&& 0 <= i < entry_count
            &&& e[i].target_type != 0
            &&& e[i].target_type == 1 ==> e[i].target_guid != [0u8; 16usize]
            &&& forall|k: int| 0 <= k < i ==> (#[trigger] e[k]).target_type != 0
        }) ==> r == Err::<Vec<u8>, Errno>(Errno::EINVAL),
{
    let e = entries->0@;
    let view = c_array_view(entries, entry_count);
    if 0 <= i < entry_count && entries is Some && e[i].target_type != 0 && (e[i].target_type == 1
        ==> e[i].target_guid != [0u8; 16usize]) && (forall|k: int|
        0 <= k < i ==> (#[trigger] e[k]).target_type != 0) {
        assert(view[i] == e[i]);
        nil_is_all_zero(e[i].target_guid);
        assert(!view[i].target_ok());
        assert(!entries_ask(view)) by {
            if entries_ask(view) {
                let n = choose|n: int|
                    0 <= n < view.len() && (#[trigger] view[n]).target_type == RSI_PATH_TARGET_GUID
                        && (forall|k: int| 0 <= k < n ==> (#[trigger] view[k]).target_ok());
                assert(view[n] == e[n]);
            }
        }
    }
}

} // verus!
