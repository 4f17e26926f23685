//! When an enumeration is refused, in the caller's own terms.
//!
//! As for the other replies, the laws spell the rules out over the structures, pointers
//! and counts that the caller hands over.
use vstd::prelude::*;

use crate::c_array::{c_array_present, c_array_valid, c_array_view};
use crate::completeness::{
    child_arrays_valid, child_targets, children_ask, entries_ask, enum_children_metadata_asks,
    enum_children_metadata_ok, lookup_metadata_asks, metadata_guids, path_targets,
};
use crate::entries::{
    array_accepted, array_records, array_valid, child_targets_ok, rsi_child_entry, rsi_key_metadata,
    rsi_path_entry, CRecord,
};
use crate::errno::Errno;
use crate::guids::Guid;
use crate::records::WireRecord;
use crate::request::rsi_request;
use crate::response::{asks_for, enum_children_accepted, enum_children_reply, is_reply};
use crate::rules::{
    a_record_is_about, lemma_about, lemma_path_target, lemma_path_targets_ok, lemma_unique,
    metadata_array_may_go_out, nil_is_all_zero, path_array_may_go_out,
};
use crate::vocabulary::{RsiAbi, RSI_PATH_TARGET_GUID};

verus! {

/// An entry of one of the first `n` children names the key `g`.
pub open spec fn a_child_names(s: Seq<rsi_child_entry>, n: int, g: Guid) -> bool {
    exists|c: int, i: int|
        0 <= c < n && 0 <= i < s[c].entry_count && (#[trigger] s[c].entries->0@[i]).target_type
            == 0 && s[c].entries->0@[i].target_guid == g
}

/// When an array of children may go into a reply.
pub proof fn child_array_may_go_out(ptr: Option<&[rsi_child_entry]>, count: u32)
    requires
        array_valid(ptr, count),
    ensures
        array_accepted(ptr, count) <==> {
            let s = ptr->0@;
            &&& count > 0 ==> ptr is Some
            &&& forall|c: int|
                0 <= c < count ==> {
                    &&& (#[trigger] s[c]).child_name_len > 0 ==> s[c].child_name is Some
                    &&& s[c].entry_count > 0 ==> s[c].entries is Some
                }
            &&& forall|c: int, i: int|
                #![trigger s[c].entries->0@[i]]
                0 <= c < count && 0 <= i < s[c].entry_count ==> {
                    &&& s[c].entries->0@[i].layer_len > 0 ==> s[c].entries->0@[i].layer is Some
                    &&& s[c].entries->0@[i].target_type == 0
                        || (s[c].entries->0@[i].target_type == 1
                            && s[c].entries->0@[i].target_guid == [0u8; 16usize])
                }
        },
{
    let s = ptr->0@;
    let view = c_array_view(ptr, count);
    if count > 0 && ptr is Some {
        assert(view.len() == count);
        if array_accepted(ptr, count) {
            assert forall|c: int| 0 <= c < count implies {
                &&& (#[trigger] s[c]).child_name_len > 0 ==> s[c].child_name is Some
                &&& s[c].entry_count > 0 ==> s[c].entries is Some
            } by {
                assert(view[c].accepted());
            }
            assert forall|c: int, i: int|
                #![trigger s[c].entries->0@[i]]
                0 <= c < count && 0 <= i < s[c].entry_count implies {
                &&& s[c].entries->0@[i].layer_len > 0 ==> s[c].entries->0@[i].layer is Some
                &&& s[c].entries->0@[i].target_type == 0
                    || (s[c].entries->0@[i].target_type == 1
                        && s[c].entries->0@[i].target_guid == [0u8; 16usize])
            } by {
                assert(view[c].accepted() && view[c].valid());
                path_array_may_go_out(s[c].entries, s[c].entry_count);
            }
        } else if {
            &&& forall|c: int|
                0 <= c < count ==> {
                    &&& (#[trigger] s[c]).child_name_len > 0 ==> s[c].child_name is Some
                    &&& s[c].entry_count > 0 ==> s[c].entries is Some
                }
            &&& forall|c: int, i: int|
                #![trigger s[c].entries->0@[i]]
                0 <= c < count && 0 <= i < s[c].entry_count ==> {
                    &&& s[c].entries->0@[i].layer_len > 0 ==> s[c].entries->0@[i].layer is Some
                    &&& s[c].entries->0@[i].target_type == 0
                        || (s[c].entries->0@[i].target_type == 1
                            && s[c].entries->0@[i].target_guid == [0u8; 16usize])
                }
        } {
            assert forall|c: int| 0 <= c < view.len() implies (#[trigger] view[c]).accepted() by {
                assert(view[c] == s[c]);
                assert(view[c].valid());
                let e = s[c].entries->0@;
                assert forall|i: int| 0 <= i < s[c].entry_count implies {
                    &&& (#[trigger] e[i]).layer_len > 0 ==> e[i].layer is Some
                    &&& e[i].target_type == 0 || (e[i].target_type == 1
                        && e[i].target_guid == [0u8; 16usize])
                } by {
                    assert(s[c].entries->0@[i] == e[i]);
                }
                path_array_may_go_out(s[c].entries, s[c].entry_count);
            }
        }
    }
}

proof fn lemma_child_targets_ok(children: Option<&[rsi_child_entry]>, count: u32)
    requires
        child_arrays_valid(children, count),
    ensures
        child_targets_ok(children, count) <==> {
            let s = children->0@;
            &&& count > 0 ==> children is Some
            &&& forall|c: int|
                0 <= c < count ==> (#[trigger] s[c]).entry_count > 0 ==> s[c].entries is Some
            &&& forall|c: int, i: int|
                #![trigger s[c].entries->0@[i]]
                0 <= c < count && 0 <= i < s[c].entry_count ==> s[c].entries->0@[i].target_type == 0
                    || (s[c].entries->0@[i].target_type == 1 && s[c].entries->0@[i].target_guid
                    == [0u8; 16usize])
        },
{
    let s = children->0@;
    let view = c_array_view(children, count);
    if count > 0 && children is Some {
        assert(view.len() == count);
        if child_targets_ok(children, count) {
            assert forall|c: int| 0 <= c < count implies (#[trigger] s[c]).entry_count > 0
                ==> s[c].entries is Some by {
                assert(view[c].targets_ok());
            }
            assert forall|c: int, i: int|
                #![trigger s[c].entries->0@[i]]
                0 <= c < count && 0 <= i < s[c].entry_count implies s[c].entries->0@[i].target_type
                == 0 || (s[c].entries->0@[i].target_type == 1 && s[c].entries->0@[i].target_guid
                == [0u8; 16usize]) by {
                assert(view[c].targets_ok());
                lemma_path_targets_ok(s[c].entries, s[c].entry_count);
            }
        } else if {
            &&& forall|c: int|
                0 <= c < count ==> (#[trigger] s[c]).entry_count > 0 ==> s[c].entries is Some
            &&& forall|c: int, i: int|
                #![trigger s[c].entries->0@[i]]
                0 <= c < count && 0 <= i < s[c].entry_count ==> s[c].entries->0@[i].target_type == 0
                    || (s[c].entries->0@[i].target_type == 1 && s[c].entries->0@[i].target_guid
                    == [0u8; 16usize])
        } {
            assert forall|c: int| 0 <= c < view.len() implies (#[trigger] view[c]).targets_ok() by {
                assert(view[c] == s[c]);
                let e = s[c].entries->0@;
                assert forall|i: int| 0 <= i < s[c].entry_count implies (#[trigger] e[i]).target_type
                    == 0 || (e[i].target_type == 1 && e[i].target_guid == [0u8; 16usize]) by {
                    assert(s[c].entries->0@[i] == e[i]);
                }
                lemma_path_targets_ok(s[c].entries, s[c].entry_count);
            }
        }
    }
}

proof fn lemma_child_target(children: Option<&[rsi_child_entry]>, count: u32, g: Guid)
    requires
        child_targets_ok(children, count),
        child_arrays_valid(children, count),
    ensures
        child_targets(array_records(children, count)).contains(g) <==> a_child_names(
            children->0@,
            count as int,
            g,
        ),
{
    let s = children->0@;
    let view = c_array_view(children, count);
    let all = array_records(children, count);
    assert(all.len() == count && view.len() == count);
    if child_targets(all).contains(g) {
        let c = choose|c: int|
            0 <= c < all.len() && path_targets((#[trigger] all[c]).entries).contains(g);
        assert(view[c] == s[c]);
        assert(view[c].targets_ok());
        assert(all[c].entries == array_records(s[c].entries, s[c].entry_count));
        lemma_path_target(s[c].entries, s[c].entry_count, g);
        let e = s[c].entries->0@;
        let i = choose|i: int|
            0 <= i < s[c].entry_count && (#[trigger] e[i]).target_type == 0
                && e[i].target_guid == g;
        assert(s[c].entries->0@[i].target_guid == g);
    }
    if a_child_names(s, count as int, g) {
        let (c, i) = choose|c: int, i: int|
            0 <= c < count && 0 <= i < s[c].entry_count && (
            #[trigger] s[c].entries->0@[i]).target_type == 0 && s[c].entries->0@[i].target_guid
                == g;
        let e = s[c].entries->0@;
        assert(e[i].target_guid == g);
        assert(view[c] == s[c]);
        assert(view[c].targets_ok());
        assert(all[c].entries == array_records(s[c].entries, s[c].entry_count));
        lemma_path_target(s[c].entries, s[c].entry_count, g);
        assert(path_targets(all[c].entries).contains(g));
    }
}

proof fn lemma_enum_rules(
    children: Option<&[rsi_child_entry]>,
    child_count: u32,
    metadata: Option<&[rsi_key_metadata]>,
    metadata_count: u32,
)
    requires
        child_arrays_valid(children, child_count),
        c_array_valid(metadata, metadata_count),
        enum_children_metadata_ok(children, child_count, metadata, metadata_count),
    ensures
        ({
            let s = children->0@;
            let m = metadata->0@;
            &&& child_count > 0 ==> children is Some
            &&& metadata_count > 0 ==> metadata is Some
            &&& forall|c: int|
                0 <= c < child_count ==> (#[trigger] s[c]).entry_count > 0 ==> s[c].entries is Some
            &&& forall|c: int, i: int|
                #![trigger s[c].entries->0@[i]]
                0 <= c < child_count && 0 <= i < s[c].entry_count
                    ==> s[c].entries->0@[i].target_type == 0
                    || (s[c].entries->0@[i].target_type == 1 && s[c].entries->0@[i].target_guid
                    == [0u8; 16usize])
            &&& forall|j: int| 0 <= j < metadata_count ==> (#[trigger] m[j]).guid != [0u8; 16usize]
            &&& forall|j: int, k: int|
                0 <= j < k < metadata_count ==> (#[trigger] m[j]).guid != (#[trigger] m[k]).guid
            &&& forall|g: Guid|
                #![trigger a_child_names(s, child_count as int, g)]
                #![trigger a_record_is_about(m, metadata_count as int, g)]
                a_child_names(s, child_count as int, g) <==> a_record_is_about(m,
                    metadata_count as int, g)
        }),
{
    let s = children->0@;
    let m = metadata->0@;
    let targets = child_targets(array_records(children, child_count));
    let guids = metadata_guids(array_records(metadata, metadata_count));
    let n = metadata_count as int;
    lemma_child_targets_ok(children, child_count);
    assert(guids.len() == n);
    lemma_unique(m, n, guids);
    assert forall|g: Guid|
        #![trigger a_child_names(s, child_count as int, g)]
        #![trigger a_record_is_about(m, metadata_count as int, g)]
        a_child_names(s, child_count as int, g) <==> a_record_is_about(
            m,
            metadata_count as int,
            g,
        ) by {
        lemma_child_target(children, child_count, g);
        lemma_about(m, n, guids, g);
        assert(guids.to_set().contains(g) <==> targets.contains(g));
    }
}

proof fn lemma_enum_ok(
    children: Option<&[rsi_child_entry]>,
    child_count: u32,
    metadata: Option<&[rsi_key_metadata]>,
    metadata_count: u32,
)
    requires
        child_arrays_valid(children, child_count),
        c_array_valid(metadata, metadata_count),
        ({
            let s = children->0@;
            let m = metadata->0@;
            &&& child_count > 0 ==> children is Some
            &&& metadata_count > 0 ==> metadata is Some
            &&& forall|c: int|
                0 <= c < child_count ==> (#[trigger] s[c]).entry_count > 0 ==> s[c].entries is Some
            &&& forall|c: int, i: int|
                #![trigger s[c].entries->0@[i]]
                0 <= c < child_count && 0 <= i < s[c].entry_count
                    ==> s[c].entries->0@[i].target_type == 0
                    || (s[c].entries->0@[i].target_type == 1 && s[c].entries->0@[i].target_guid
                    == [0u8; 16usize])
            &&& forall|j: int| 0 <= j < metadata_count ==> (#[trigger] m[j]).guid != [0u8; 16usize]
            &&& forall|j: int, k: int|
                0 <= j < k < metadata_count ==> (#[trigger] m[j]).guid != (#[trigger] m[k]).guid
            &&& forall|g: Guid|
                #![trigger a_child_names(s, child_count as int, g)]
                #![trigger a_record_is_about(m, metadata_count as int, g)]
                a_child_names(s, child_count as int, g) <==> a_record_is_about(m,
                    metadata_count as int, g)
        }),
    ensures
        enum_children_metadata_ok(children, child_count, metadata, metadata_count),
{
    let s = children->0@;
    let m = metadata->0@;
    let targets = child_targets(array_records(children, child_count));
    let guids = metadata_guids(array_records(metadata, metadata_count));
    let n = metadata_count as int;
    lemma_child_targets_ok(children, child_count);
    assert(guids.len() == n);
    lemma_unique(m, n, guids);
    assert forall|g: Guid| guids.to_set().contains(g) == targets.contains(g) by {
        lemma_child_target(children, child_count, g);
        lemma_about(m, n, guids, g);
        assert(a_child_names(s, child_count as int, g) <==> a_record_is_about(m, n, g));
    }
    assert(guids.to_set() =~= targets);
}

/// The metadata of an enumeration is in order exactly where the entries of each child are
/// there and each target is in order, no record is about the nil GUID, no two are about
/// the same key, each key that an entry of a child names has a record, and each record is
/// about a key that an entry of a child names.
pub proof fn enum_children_metadata_in_order(
    children: Option<&[rsi_child_entry]>,
    child_count: u32,
    metadata: Option<&[rsi_key_metadata]>,
    metadata_count: u32,
)
    requires
        child_arrays_valid(children, child_count),
        c_array_valid(metadata, metadata_count),
    ensures
        enum_children_metadata_ok(children, child_count, metadata, metadata_count) <==> {
            let s = children->0@;
            let m = metadata->0@;
            &&& child_count > 0 ==> children is Some
            &&& metadata_count > 0 ==> metadata is Some
            &&& forall|c: int|
                0 <= c < child_count ==> (#[trigger] s[c]).entry_count > 0 ==> s[c].entries is Some
            &&& forall|c: int, i: int|
                #![trigger s[c].entries->0@[i]]
                0 <= c < child_count && 0 <= i < s[c].entry_count
                    ==> s[c].entries->0@[i].target_type == 0
                    || (s[c].entries->0@[i].target_type == 1 && s[c].entries->0@[i].target_guid
                    == [0u8; 16usize])
            &&& forall|j: int| 0 <= j < metadata_count ==> (#[trigger] m[j]).guid != [0u8; 16usize]
            &&& forall|j: int, k: int|
                0 <= j < k < metadata_count ==> (#[trigger] m[j]).guid != (#[trigger] m[k]).guid
            &&& forall|g: Guid|
                #![trigger a_child_names(s, child_count as int, g)]
                #![trigger a_record_is_about(m, metadata_count as int, g)]
                a_child_names(s, child_count as int, g) <==> a_record_is_about(m,
                    metadata_count as int, g)
        },
{
    let s = children->0@;
    let m = metadata->0@;
    if enum_children_metadata_ok(children, child_count, metadata, metadata_count) {
        lemma_enum_rules(children, child_count, metadata, metadata_count);
    } else if {
        &&& child_count > 0 ==> children is Some
        &&& metadata_count > 0 ==> metadata is Some
        &&& forall|c: int|
            0 <= c < child_count ==> (#[trigger] s[c]).entry_count > 0 ==> s[c].entries is Some
        &&& forall|c: int, i: int|
            #![trigger s[c].entries->0@[i]]
            0 <= c < child_count && 0 <= i < s[c].entry_count
                ==> s[c].entries->0@[i].target_type == 0
                || (s[c].entries->0@[i].target_type == 1 && s[c].entries->0@[i].target_guid
                == [0u8; 16usize])
        &&& forall|j: int| 0 <= j < metadata_count ==> (#[trigger] m[j]).guid != [0u8; 16usize]
        &&& forall|j: int, k: int|
            0 <= j < k < metadata_count ==> (#[trigger] m[j]).guid != (#[trigger] m[k]).guid
        &&& forall|g: Guid|
            #![trigger a_child_names(s, child_count as int, g)]
            #![trigger a_record_is_about(m, metadata_count as int, g)]
            a_child_names(s, child_count as int, g) <==> a_record_is_about(m,
                metadata_count as int, g)
    } {
        lemma_enum_ok(children, child_count, metadata, metadata_count);
    }
}

proof fn lemma_enum_accepted_rules(
    children: Option<&[rsi_child_entry]>,
    child_count: u32,
    metadata: Option<&[rsi_key_metadata]>,
    metadata_count: u32,
)
    requires
        array_valid(children, child_count),
        array_valid(metadata, metadata_count),
        enum_children_accepted(children, child_count, metadata, metadata_count),
    ensures
        ({
            let s = children->0@;
            let m = metadata->0@;
            &&& child_count > 0 ==> children is Some
            &&& metadata_count > 0 ==> metadata is Some
            &&& forall|c: int|
                0 <= c < child_count ==> {
                    &&& (#[trigger] s[c]).child_name_len > 0 ==> s[c].child_name is Some
                    &&& s[c].entry_count > 0 ==> s[c].entries is Some
                }
            &&& forall|c: int, i: int|
                #![trigger s[c].entries->0@[i]]
                0 <= c < child_count && 0 <= i < s[c].entry_count ==> {
                    &&& s[c].entries->0@[i].layer_len > 0 ==> s[c].entries->0@[i].layer is Some
                    &&& s[c].entries->0@[i].target_type == 0
                        || (s[c].entries->0@[i].target_type == 1
                            && s[c].entries->0@[i].target_guid == [0u8; 16usize])
                }
            &&& forall|i: int|
                0 <= i < metadata_count ==> {
                    &&& (#[trigger] m[i]).sd_len > 0 ==> m[i].sd is Some
                    &&& m[i].volatile_key == 0 || m[i].volatile_key == 1
                    &&& m[i].symlink == 0 || m[i].symlink == 1
                }
            &&& forall|j: int| 0 <= j < metadata_count ==> (#[trigger] m[j]).guid != [0u8; 16usize]
            &&& forall|j: int, k: int|
                0 <= j < k < metadata_count ==> (#[trigger] m[j]).guid != (#[trigger] m[k]).guid
            &&& forall|g: Guid|
                #![trigger a_child_names(s, child_count as int, g)]
                #![trigger a_record_is_about(m, metadata_count as int, g)]
                a_child_names(s, child_count as int, g) <==> a_record_is_about(m,
                    metadata_count as int, g)
        }),
{
    child_array_may_go_out(children, child_count);
    metadata_array_may_go_out(metadata, metadata_count);
    lemma_enum_rules(children, child_count, metadata, metadata_count);
}

proof fn lemma_enum_accepted(
    children: Option<&[rsi_child_entry]>,
    child_count: u32,
    metadata: Option<&[rsi_key_metadata]>,
    metadata_count: u32,
)
    requires
        array_valid(children, child_count),
        array_valid(metadata, metadata_count),
        ({
            let s = children->0@;
            let m = metadata->0@;
            &&& child_count > 0 ==> children is Some
            &&& metadata_count > 0 ==> metadata is Some
            &&& forall|c: int|
                0 <= c < child_count ==> {
                    &&& (#[trigger] s[c]).child_name_len > 0 ==> s[c].child_name is Some
                    &&& s[c].entry_count > 0 ==> s[c].entries is Some
                }
            &&& forall|c: int, i: int|
                #![trigger s[c].entries->0@[i]]
                0 <= c < child_count && 0 <= i < s[c].entry_count ==> {
                    &&& s[c].entries->0@[i].layer_len > 0 ==> s[c].entries->0@[i].layer is Some
                    &&& s[c].entries->0@[i].target_type == 0
                        || (s[c].entries->0@[i].target_type == 1
                            && s[c].entries->0@[i].target_guid == [0u8; 16usize])
                }
            &&& forall|i: int|
                0 <= i < metadata_count ==> {
                    &&& (#[trigger] m[i]).sd_len > 0 ==> m[i].sd is Some
                    &&& m[i].volatile_key == 0 || m[i].volatile_key == 1
                    &&& m[i].symlink == 0 || m[i].symlink == 1
                }
            &&& forall|j: int| 0 <= j < metadata_count ==> (#[trigger] m[j]).guid != [0u8; 16usize]
            &&& forall|j: int, k: int|
                0 <= j < k < metadata_count ==> (#[trigger] m[j]).guid != (#[trigger] m[k]).guid
            &&& forall|g: Guid|
                #![trigger a_child_names(s, child_count as int, g)]
                #![trigger a_record_is_about(m, metadata_count as int, g)]
                a_child_names(s, child_count as int, g) <==> a_record_is_about(m,
                    metadata_count as int, g)
        }),
    ensures
        enum_children_accepted(children, child_count, metadata, metadata_count),
{
    child_array_may_go_out(children, child_count);
    metadata_array_may_go_out(metadata, metadata_count);
    lemma_enum_ok(children, child_count, metadata, metadata_count);
}

/// An ENUM_CHILDREN is answered, unless the frame is too long or no memory can be had,
/// exactly where it is what the request asks for, every pointer is there that has
/// something behind it, every target and every flag is in order, and the metadata is about
/// exactly the keys that the entries of the children name. It is refused with `EINVAL`
/// everywhere else.
pub proof fn enum_children_is_refused_for_cause(
    abi: &RsiAbi,
    op_known: bool,
    req: Option<&rsi_request>,
    children: Option<&[rsi_child_entry]>,
    child_count: u32,
    metadata: Option<&[rsi_key_metadata]>,
    metadata_count: u32,
    r: Result<Vec<u8>, Errno>,
)
    requires
        array_valid(children, child_count),
        array_valid(metadata, metadata_count),
        is_reply(
            r,
            req,
            asks_for(req, abi.enum_children) && op_known && enum_children_accepted(
                children,
                child_count,
                metadata,
                metadata_count,
            ),
            asks_for(req, abi.enum_children) && (enum_children_metadata_asks(
                children,
                child_count,
                metadata,
                metadata_count,
            ) || (op_known && enum_children_accepted(children, child_count, metadata,
                metadata_count))),
            abi.ok,
            enum_children_reply(children, child_count, metadata, metadata_count).bytes(),
        ),
    ensures
        r matches Err(e) ==> e == Errno::EINVAL || e == Errno::ENOMEM || e == Errno::EOVERFLOW,
        r == Err::<Vec<u8>, Errno>(Errno::ENOMEM) || (r == Err::<Vec<u8>,
            Errno>(Errno::EINVAL) <==> !{
            let s = children->0@;
            let m = metadata->0@;
            &&& req is Some && req->0.op_code == abi.enum_children as u16
            &&& op_known
            &&& child_count > 0 ==> children is Some
            &&& metadata_count > 0 ==> metadata is Some
            &&& forall|c: int|
                0 <= c < child_count ==> {
                    &&& (#[trigger] s[c]).child_name_len > 0 ==> s[c].child_name is Some
                    &&& s[c].entry_count > 0 ==> s[c].entries is Some
                }
            &&& forall|c: int, i: int|
                #![trigger s[c].entries->0@[i]]
                0 <= c < child_count && 0 <= i < s[c].entry_count ==> {
                    &&& s[c].entries->0@[i].layer_len > 0 ==> s[c].entries->0@[i].layer is Some
                    &&& s[c].entries->0@[i].target_type == 0
                        || (s[c].entries->0@[i].target_type == 1
                            && s[c].entries->0@[i].target_guid == [0u8; 16usize])
                }
            &&& forall|i: int|
                0 <= i < metadata_count ==> {
                    &&& (#[trigger] m[i]).sd_len > 0 ==> m[i].sd is Some
                    &&& m[i].volatile_key == 0 || m[i].volatile_key == 1
                    &&& m[i].symlink == 0 || m[i].symlink == 1
                }
            &&& forall|j: int| 0 <= j < metadata_count ==> (#[trigger] m[j]).guid != [0u8; 16usize]
            &&& forall|j: int, k: int|
                0 <= j < k < metadata_count ==> (#[trigger] m[j]).guid != (#[trigger] m[k]).guid
            &&& forall|g: Guid|
                #![trigger a_child_names(s, child_count as int, g)]
                #![trigger a_record_is_about(m, metadata_count as int, g)]
                a_child_names(s, child_count as int, g) <==> a_record_is_about(m,
                    metadata_count as int, g)
        }),
{
    let s = children->0@;
    let m = metadata->0@;
    if enum_children_accepted(children, child_count, metadata, metadata_count) {
        lemma_enum_accepted_rules(children, child_count, metadata, metadata_count);
    } else if {
        &&& child_count > 0 ==> children is Some
        &&& metadata_count > 0 ==> metadata is Some
        &&& forall|c: int|
            0 <= c < child_count ==> {
                &&& (#[trigger] s[c]).child_name_len > 0 ==> s[c].child_name is Some
                &&& s[c].entry_count > 0 ==> s[c].entries is Some
            }
        &&& forall|c: int, i: int|
            #![trigger s[c].entries->0@[i]]
            0 <= c < child_count && 0 <= i < s[c].entry_count ==> {
                &&& s[c].entries->0@[i].layer_len > 0 ==> s[c].entries->0@[i].layer is Some
                &&& s[c].entries->0@[i].target_type == 0
                    || (s[c].entries->0@[i].target_type == 1
                        && s[c].entries->0@[i].target_guid == [0u8; 16usize])
            }
        &&& forall|i: int|
            0 <= i < metadata_count ==> {
                &&& (#[trigger] m[i]).sd_len > 0 ==> m[i].sd is Some
                &&& m[i].volatile_key == 0 || m[i].volatile_key == 1
                &&& m[i].symlink == 0 || m[i].symlink == 1
            }
        &&& forall|j: int| 0 <= j < metadata_count ==> (#[trigger] m[j]).guid != [0u8; 16usize]
        &&& forall|j: int, k: int|
            0 <= j < k < metadata_count ==> (#[trigger] m[j]).guid != (#[trigger] m[k]).guid
        &&& forall|g: Guid|
            #![trigger a_child_names(s, child_count as int, g)]
            #![trigger a_record_is_about(m, metadata_count as int, g)]
            a_child_names(s, child_count as int, g) <==> a_record_is_about(m,
                metadata_count as int, g)
    } {
        lemma_enum_accepted(children, child_count, metadata, metadata_count);
    }
}

/// Nothing is asked of the allocator to refuse an ENUM_CHILDREN reply to another request,
/// one with a NULL array, or one whose first children name no key and are followed by a
/// child whose entries are NULL though counted, or run into a target that is not in order
/// before they name a key: that is `EINVAL`, whatever memory there is.
pub proof fn enum_children_is_refused_without_memory(
    abi: &RsiAbi,
    op_known: bool,
    req: Option<&rsi_request>,
    children: Option<&[rsi_child_entry]>,
    child_count: u32,
    metadata: Option<&[rsi_key_metadata]>,
    metadata_count: u32,
    r: Result<Vec<u8>, Errno>,
    c: int,
    i: int,
)
    requires
        array_valid(children, child_count),
        array_valid(metadata, metadata_count),
        is_reply(
            r,
            req,
            asks_for(req, abi.enum_children) && op_known && enum_children_accepted(
                children,
                child_count,
                metadata,
                metadata_count,
            ),
            asks_for(req, abi.enum_children) && (enum_children_metadata_asks(
                children,
                child_count,
                metadata,
                metadata_count,
            ) || (op_known && enum_children_accepted(children, child_count, metadata,
                metadata_count))),
            abi.ok,
            enum_children_reply(children, child_count, metadata, metadata_count).bytes(),
        ),
    ensures
        !(req is Some && req->0.op_code == abi.enum_children as u16) ==> r == Err::<Vec<u8>,
            Errno>(Errno::EINVAL),
        child_count > 0 && children is None ==> r == Err::<Vec<u8>, Errno>(Errno::EINVAL),
        ({
            let s = children->0@;
            &&& 0 <= c < child_count
            &&& forall|a: int, k: int|
                0 <= a < c && 0 <= k < s[a].entry_count ==> (
                #[trigger] s[a].entries->0@[k]).target_type != 0
            &&& s[c].entry_count > 0 && s[c].entries is None || {
                let e = s[c].entries->0@;
                &&& 0 <= i < s[c].entry_count
                &&& e[i].target_type != 0
                &&& e[i].target_type == 1 ==> e[i].target_guid != [0u8; 16usize]
                &&& forall|k: int| 0 <= k < i ==> (#[trigger] e[k]).target_type != 0
            }
        }) ==> r == Err::<Vec<u8>, Errno>(Errno::EINVAL),
{
    let s = children->0@;
    let view = c_array_view(children, child_count);
    let e = s[c].entries->0@;
    let unread = s[c].entry_count > 0 && s[c].entries is None;
    let bad = 0 <= i < s[c].entry_count && e[i].target_type != 0 && (e[i].target_type == 1
        ==> e[i].target_guid != [0u8; 16usize]) && (forall|k: int|
        0 <= k < i ==> (#[trigger] e[k]).target_type != 0);
    let before = forall|a: int, k: int|
        0 <= a < c && 0 <= k < s[a].entry_count ==> (
        #[trigger] s[a].entries->0@[k]).target_type != 0;
    if 0 <= c < child_count && children is Some && before && (unread || bad) {
        assert(view[c] == s[c]);
        assert(view[c].valid());
        let inner = c_array_view(s[c].entries, s[c].entry_count);
        if !unread {
            assert(inner[i] == e[i]);
            nil_is_all_zero(e[i].target_guid);
            assert(!inner[i].target_ok());
        }
        assert(!view[c].targets_ok());
        assert(!children_ask(view)) by {
            if children_ask(view) {
                let n = choose|n: int|
                    0 <= n < view.len() && c_array_present(
                        (#[trigger] view[n]).entries,
                        view[n].entry_count,
                    ) && entries_ask(c_array_view(view[n].entries, view[n].entry_count)) && (forall|
                        k: int,
                    |
                        0 <= k < n ==> (#[trigger] view[k]).targets_ok());
                assert(view[n] == s[n]);
                let run = c_array_view(view[n].entries, view[n].entry_count);
                let h = choose|h: int|
                    0 <= h < run.len() && (#[trigger] run[h]).target_type == RSI_PATH_TARGET_GUID
                        && (forall|k: int| 0 <= k < h ==> (#[trigger] run[k]).target_ok());
                assert(run[h] == s[n].entries->0@[h]);
            }
        }
    }
}

/// To find the metadata in order asks for no memory where no entry names a key and there
/// is no metadata.
pub proof fn nothing_to_gather_asks_for_nothing(
    entries: Option<&[rsi_path_entry]>,
    entry_count: u32,
    children: Option<&[rsi_child_entry]>,
    child_count: u32,
    metadata: Option<&[rsi_key_metadata]>,
)
    requires
        c_array_valid(entries, entry_count),
        child_arrays_valid(children, child_count),
    ensures
        (forall|i: int| 0 <= i < entry_count ==> (#[trigger] entries->0@[i]).target_type != 0)
            ==> !lookup_metadata_asks(entries, entry_count, metadata, 0),
        (forall|c: int, i: int|
            0 <= c < child_count && 0 <= i < children->0@[c].entry_count ==> (
            #[trigger] children->0@[c].entries->0@[i]).target_type != 0)
            ==> !enum_children_metadata_asks(children, child_count, metadata, 0),
{
    let ev = c_array_view(entries, entry_count);
    if entries_ask(ev) {
        let n = choose|n: int|
            0 <= n < ev.len() && (#[trigger] ev[n]).target_type == RSI_PATH_TARGET_GUID && (forall|
                k: int,
            |
                0 <= k < n ==> (#[trigger] ev[k]).target_ok());
        assert(entries->0@[n].target_type == 0);
    }
    let view = c_array_view(children, child_count);
    if children_ask(view) {
        let n = choose|n: int|
            0 <= n < view.len() && c_array_present(
                (#[trigger] view[n]).entries,
                view[n].entry_count,
            ) && entries_ask(c_array_view(view[n].entries, view[n].entry_count)) && (forall|k: int|
                0 <= k < n ==> (#[trigger] view[k]).targets_ok());
        assert(view[n] == children->0@[n]);
        let run = c_array_view(view[n].entries, view[n].entry_count);
        let h = choose|h: int|
            0 <= h < run.len() && (#[trigger] run[h]).target_type == RSI_PATH_TARGET_GUID && (
            forall|k: int| 0 <= k < h ==> (#[trigger] run[k]).target_ok());
        assert(run[h] == children->0@[n].entries->0@[h]);
    }
}

} // verus!
