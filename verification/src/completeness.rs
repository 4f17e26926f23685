//! The metadata of a reply: one record for each key that the reply names, and none for
//! any other.
use vstd::prelude::*;

use crate::c_array::{c_array_present, c_array_valid, c_array_view, c_slice, require_array};
use crate::entries::{
    array_records, child_targets_ok, is_guid_target, path_targets_ok, records_of,
    require_path_target, rsi_child_entry, rsi_key_metadata, rsi_path_entry, CRecord,
};
use crate::errno::Errno;
use crate::guids::{
    guid_vec_with_capacity, ordered_set, ordered_set_is_canonical, push_guid, same_guids,
    sort_dedup_guids, unique_nonzero, validate_unique_nonzero_guids, Guid,
};
use crate::records::{ChildEntry, KeyMetadata, PathEntry};
use crate::vocabulary::RSI_PATH_TARGET_GUID;

verus! {

/// The keys that a list of path entries names.
pub open spec fn path_targets(entries: Seq<PathEntry>) -> Set<Guid> {
    Set::new(
        |guid: Guid|
            exists|i: int|
                0 <= i < entries.len() && (#[trigger] entries[i]).target_type
                    == RSI_PATH_TARGET_GUID && entries[i].target_guid == guid,
    )
}

/// The keys that a list of children names.
pub open spec fn child_targets(children: Seq<ChildEntry>) -> Set<Guid> {
    Set::new(
        |guid: Guid|
            exists|i: int|
                0 <= i < children.len() && path_targets((#[trigger] children[i]).entries).contains(
                    guid,
                ),
    )
}

/// The keys that a list of metadata is about.
pub open spec fn metadata_guids(metadata: Seq<KeyMetadata>) -> Seq<Guid> {
    Seq::new(metadata.len(), |i: int| metadata[i].guid)
}

/// There is one record for each key that is named, and none for any other.
pub open spec fn metadata_complete(targets: Set<Guid>, metadata: Seq<KeyMetadata>) -> bool {
    &&& unique_nonzero(metadata_guids(metadata))
    &&& metadata_guids(metadata).to_set() == targets
}

/// Gathering the keys that these entries name asks for memory: an entry names a key, and
/// every entry before it keeps the rule on targets.
pub open spec fn entries_ask(entries: Seq<rsi_path_entry>) -> bool {
    exists|i: int|
        0 <= i < entries.len() && (#[trigger] entries[i]).target_type == RSI_PATH_TARGET_GUID && (
        forall|k: int| 0 <= k < i ==> (#[trigger] entries[k]).target_ok())
}

/// Gathering the keys that these children name asks for memory: the entries of a child
/// do, and every child before it keeps the rule on targets.
pub open spec fn children_ask(children: Seq<rsi_child_entry>) -> bool {
    exists|i: int|
        0 <= i < children.len() && c_array_present(
            (#[trigger] children[i]).entries,
            children[i].entry_count,
        ) && entries_ask(c_array_view(children[i].entries, children[i].entry_count)) && (forall|
            k: int,
        |
            0 <= k < i ==> (#[trigger] children[k]).targets_ok())
}

/// The pointer of the children is good for its count, and so is the pointer of each child
/// to its path entries.
pub open spec fn child_arrays_valid(children: Option<&[rsi_child_entry]>, count: u32) -> bool {
    &&& c_array_valid(children, count)
    &&& forall|i: int|
        0 <= i < c_array_view(children, count).len() ==> c_array_valid(
            (#[trigger] c_array_view(children, count)[i]).entries,
            c_array_view(children, count)[i].entry_count,
        )
}

/// The GUIDs of the metadata as an ordered set, gathered in `room`: an empty list, or why
/// there is none. Refuses nil and repeated GUIDs.
pub fn metadata_guids_in(records: &[rsi_key_metadata], room: Result<Vec<Guid>, Errno>) -> (r:
    Result<Vec<Guid>, Errno>)
    requires
        room matches Ok(v) ==> v@.len() == 0,
    ensures
        ({
            let guids = metadata_guids(records_of(records@));
            match (room, r) {
                (Err(e), _) => r == Err::<Vec<Guid>, Errno>(e),
                (Ok(_), Ok(set)) => {
                    &&& unique_nonzero(guids)
                    &&& ordered_set(set@)
                    &&& set@.to_set() == guids.to_set()
                },
                (Ok(_), Err(e)) => e == Errno::EINVAL && !unique_nonzero(guids),
            }
        }),
{
    let ghost all = metadata_guids(records_of(records@));
    let mut guids: Vec<Guid> = match room {
        Ok(guids) => guids,
        Err(e) => {
            return Err(e);
        },
    };
    let mut i: usize = 0;
    assert(guids@ =~= all.take(0));
    while i < records.len()
        invariant
            i <= records@.len(),
            all == metadata_guids(records_of(records@)),
            guids@ == all.take(i as int),
        decreases records@.len() - i,
    {
        guids.push(records[i].guid);
        i += 1;
        assert(guids@ =~= all.take(i as int));
    }
    assert(guids@ =~= all);
    match validate_unique_nonzero_guids(guids.as_mut_slice()) {
        Ok(_) => Ok(guids),
        Err(e) => Err(e),
    }
}

/// The GUIDs of the metadata as an ordered set; refuses nil and repeated ones.
pub fn metadata_guid_set(metadata: Option<&[rsi_key_metadata]>, count: u32) -> (r: Result<
    Vec<Guid>,
    Errno,
>)
    requires
        c_array_valid(metadata, count),
    ensures
        ({
            let guids = metadata_guids(array_records(metadata, count));
            match r {
                Ok(set) => {
                    &&& c_array_present(metadata, count) && unique_nonzero(guids)
                    &&& ordered_set(set@)
                    &&& set@.to_set() == guids.to_set()
                },
                Err(Errno::EINVAL) => !c_array_present(metadata, count) || !unique_nonzero(guids),
                Err(e) => e == Errno::ENOMEM && c_array_present(metadata, count) && count != 0,
            }
        }),
{
    if let Err(e) = require_array(metadata, count) {
        return Err(e);
    }
    metadata_guids_in(c_slice(metadata, count), guid_vec_with_capacity(count as usize))
}

/// Adds the keys that `entries` name to `guids`; refuses an entry that breaks the rule
/// on targets.
fn collect_targets(entries: &[rsi_path_entry], guids: &mut Vec<Guid>) -> (r: Result<(), Errno>)
    ensures
        ({
            let targets_ok = forall|i: int|
                0 <= i < entries@.len() ==> (#[trigger] entries@[i]).target_ok();
            match r {
                Ok(_) => {
                    &&& targets_ok
                    &&& final(guids)@.to_set() == old(guids)@.to_set().union(
                        path_targets(records_of(entries@)),
                    )
                },
                Err(Errno::EINVAL) => !targets_ok,
                Err(e) => e == Errno::ENOMEM && entries_ask(entries@),
            }
        }),
{
    let ghost all = records_of(entries@);
    let ghost before = guids@;
    let mut i: usize = 0;
    proof {
        assert(path_targets(all.take(0)) =~= Set::empty());
        assert(before.to_set() =~= before.to_set().union(path_targets(all.take(0))));
    }
    while i < entries.len()
        invariant
            i <= entries@.len(),
            all == records_of(entries@),
            forall|k: int| 0 <= k < i ==> (#[trigger] entries@[k]).target_ok(),
            guids@.to_set() == before.to_set().union(path_targets(all.take(i as int))),
        decreases entries@.len() - i,
    {
        let entry: &rsi_path_entry = &entries[i];
        if let Err(e) = require_path_target(entry.target_type, &entry.target_guid) {
            assert(!entries@[i as int].target_ok());
            return Err(e);
        }
        let ghost prior = guids@;
        if is_guid_target(entry.target_type) {
            if let Err(e) = push_guid(guids, entry.target_guid) {
                assert(entries@[i as int].target_type == RSI_PATH_TARGET_GUID);
                return Err(e);
            }
        }
        proof {
            lemma_targets_step(all, i as int);
            lemma_push_to_set(prior, entry.target_guid);
            assert(guids@.to_set() =~= before.to_set().union(path_targets(all.take(i + 1))));
        }
        i += 1;
    }
    assert(all.take(entries@.len() as int) =~= all);
    Ok(())
}

proof fn lemma_targets_step(all: Seq<PathEntry>, i: int)
    requires
        0 <= i < all.len(),
    ensures
        path_targets(all.take(i + 1)) == (if all[i].target_type == RSI_PATH_TARGET_GUID {
            path_targets(all.take(i)).insert(all[i].target_guid)
        } else {
            path_targets(all.take(i))
        }),
{
    let more = all.take(i + 1);
    let fewer = all.take(i);
    assert forall|g: Guid| path_targets(more).contains(g) implies path_targets(fewer).contains(g)
        || (all[i].target_type == RSI_PATH_TARGET_GUID && all[i].target_guid == g) by {
        let k = choose|k: int|
            0 <= k < more.len() && (#[trigger] more[k]).target_type == RSI_PATH_TARGET_GUID
                && more[k].target_guid == g;
        if k < i {
            assert(fewer[k] == more[k]);
        }
    }
    assert forall|g: Guid| path_targets(fewer).contains(g) implies path_targets(more).contains(g) by {
        let k = choose|k: int|
            0 <= k < fewer.len() && (#[trigger] fewer[k]).target_type == RSI_PATH_TARGET_GUID
                && fewer[k].target_guid == g;
        assert(more[k] == fewer[k]);
    }
    assert(more[i] == all[i]);
    if all[i].target_type == RSI_PATH_TARGET_GUID {
        assert(path_targets(more) =~= path_targets(fewer).insert(all[i].target_guid));
    } else {
        assert(path_targets(more) =~= path_targets(fewer));
    }
}

proof fn lemma_push_to_set(s: Seq<Guid>, g: Guid)
    ensures
        s.push(g).to_set() == s.to_set().insert(g),
{
    assert forall|x: Guid| s.push(g).to_set().contains(x) == s.to_set().insert(g).contains(x) by {
        if s.contains(x) {
            let k = choose|k: int| 0 <= k < s.len() && s[k] == x;
            assert(s.push(g)[k] == x);
        }
        assert(s.push(g)[s.len() as int] == g);
        if s.push(g).contains(x) && x != g {
            let k = choose|k: int| 0 <= k < s.push(g).len() && s.push(g)[k] == x;
            assert(s[k] == x);
        }
    }
    assert(s.push(g).to_set() =~= s.to_set().insert(g));
}

/// The keys that the path entries name, as an ordered set.
pub fn lookup_target_guid_set(entries: Option<&[rsi_path_entry]>, count: u32) -> (r: Result<
    Vec<Guid>,
    Errno,
>)
    requires
        c_array_valid(entries, count),
    ensures
        match r {
            Ok(set) => {
                &&& path_targets_ok(entries, count)
                &&& ordered_set(set@)
                &&& set@.to_set() == path_targets(array_records(entries, count))
            },
            Err(Errno::EINVAL) => !path_targets_ok(entries, count),
            Err(e) => {
                &&& e == Errno::ENOMEM
                &&& c_array_present(entries, count)
                &&& entries_ask(c_array_view(entries, count))
            },
        },
{
    if let Err(e) = require_array(entries, count) {
        return Err(e);
    }
    let mut guids: Vec<Guid> = Vec::new();
    if let Err(e) = collect_targets(c_slice(entries, count), &mut guids) {
        return Err(e);
    }
    sort_dedup_guids(&mut guids);
    assert(guids@.to_set() =~= path_targets(array_records(entries, count)));
    Ok(guids)
}

/// The keys that the children name, as an ordered set.
pub fn enum_children_target_guid_set(children: Option<&[rsi_child_entry]>, count: u32) -> (r:
    Result<Vec<Guid>, Errno>)
    requires
        child_arrays_valid(children, count),
    ensures
        match r {
            Ok(set) => {
                &&& child_targets_ok(children, count)
                &&& ordered_set(set@)
                &&& set@.to_set() == child_targets(array_records(children, count))
            },
            Err(Errno::EINVAL) => !child_targets_ok(children, count),
            Err(e) => {
                &&& e == Errno::ENOMEM
                &&& c_array_present(children, count)
                &&& children_ask(c_array_view(children, count))
            },
        },
{
    if let Err(e) = require_array(children, count) {
        return Err(e);
    }
    let records: &[rsi_child_entry] = c_slice(children, count);
    let ghost all = records_of(records@);
    let mut guids: Vec<Guid> = Vec::new();
    let mut i: usize = 0;
    proof {
        assert(child_targets(all.take(0)) =~= Set::empty());
        assert(guids@.to_set() =~= child_targets(all.take(0)));
    }
    while i < records.len()
        invariant
            i <= records@.len(),
            all == records_of(records@),
            forall|k: int|
                0 <= k < records@.len() ==> c_array_valid(
                    (#[trigger] records@[k]).entries,
                    records@[k].entry_count,
                ),
            forall|k: int| 0 <= k < i ==> (#[trigger] records@[k]).targets_ok(),
            guids@.to_set() == child_targets(all.take(i as int)),
            records@ == c_array_view(children, count),
        decreases records@.len() - i,
    {
        let child: &rsi_child_entry = &records[i];
        if let Err(e) = require_array(child.entries, child.entry_count) {
            assert(!records@[i as int].targets_ok());
            return Err(e);
        }
        let entries: &[rsi_path_entry] = c_slice(child.entries, child.entry_count);
        if let Err(e) = collect_targets(entries, &mut guids) {
            proof {
                assert(e == Errno::EINVAL ==> !records@[i as int].targets_ok());
                assert(e == Errno::ENOMEM ==> entries_ask(
                    c_array_view(records@[i as int].entries, records@[i as int].entry_count),
                ));
            }
            return Err(e);
        }
        proof {
            assert(records@[i as int].targets_ok());
            lemma_child_targets_step(all, i as int);
            assert(all[i as int].entries == records_of(entries@));
            assert(guids@.to_set() =~= child_targets(all.take(i + 1)));
        }
        i += 1;
    }
    sort_dedup_guids(&mut guids);
    assert(all.take(records@.len() as int) =~= all);
    Ok(guids)
}

/// One more child adds the keys that its entries name.
pub proof fn lemma_child_targets_step(all: Seq<ChildEntry>, i: int)
    requires
        0 <= i < all.len(),
    ensures
        child_targets(all.take(i + 1)) == child_targets(all.take(i)).union(
            path_targets(all[i].entries),
        ),
{
    let more = all.take(i + 1);
    let fewer = all.take(i);
    assert forall|g: Guid| child_targets(more).contains(g) implies child_targets(fewer).contains(g)
        || path_targets(all[i].entries).contains(g) by {
        let k = choose|k: int|
            0 <= k < more.len() && path_targets((#[trigger] more[k]).entries).contains(g);
        if k < i {
            assert(fewer[k] == more[k]);
        }
    }
    assert forall|g: Guid| child_targets(fewer).contains(g) implies child_targets(more).contains(g) by {
        let k = choose|k: int|
            0 <= k < fewer.len() && path_targets((#[trigger] fewer[k]).entries).contains(g);
        assert(more[k] == fewer[k]);
    }
    assert(more[i] == all[i]);
    assert(child_targets(more) =~= child_targets(fewer).union(path_targets(all[i].entries)));
}

/// Refuses metadata that is not about exactly the keys that are named.
pub fn require_same_keys(described: &Vec<Guid>, targets: &Vec<Guid>) -> (r: Result<(), Errno>)
    requires
        ordered_set(described@),
        ordered_set(targets@),
    ensures
        r == (if described@.to_set() == targets@.to_set() {
            Ok::<(), Errno>(())
        } else {
            Err(Errno::EINVAL)
        }),
{
    if same_guids(described, targets) {
        Ok(())
    } else {
        proof {
            if described@.to_set() == targets@.to_set() {
                ordered_set_is_canonical(described@, targets@);
            }
        }
        Err(Errno::EINVAL)
    }
}

/// The path entries and the metadata of a LOOKUP reply belong together.
pub open spec fn lookup_metadata_ok(
    entries: Option<&[rsi_path_entry]>,
    entry_count: u32,
    metadata: Option<&[rsi_key_metadata]>,
    metadata_count: u32,
) -> bool {
    &&& path_targets_ok(entries, entry_count)
    &&& c_array_present(metadata, metadata_count)
    &&& metadata_complete(
        path_targets(array_records(entries, entry_count)),
        array_records(metadata, metadata_count),
    )
}

/// Validating the metadata of a LOOKUP reply asks for memory: for the keys that the
/// entries name, or for those that the metadata is about.
pub open spec fn lookup_metadata_asks(
    entries: Option<&[rsi_path_entry]>,
    entry_count: u32,
    metadata: Option<&[rsi_key_metadata]>,
    metadata_count: u32,
) -> bool {
    &&& c_array_present(entries, entry_count)
    &&& entries_ask(c_array_view(entries, entry_count)) || (path_targets_ok(entries, entry_count)
        && c_array_present(metadata, metadata_count) && metadata_count != 0)
}

/// Refuses metadata that misses a key, repeats one, or is about a key that no entry
/// names.
pub fn validate_lookup_metadata(
    entries: Option<&[rsi_path_entry]>,
    entry_count: u32,
    metadata: Option<&[rsi_key_metadata]>,
    metadata_count: u32,
) -> (r: Result<(), Errno>)
    requires
        c_array_valid(entries, entry_count),
        c_array_valid(metadata, metadata_count),
    ensures
        match r {
            Ok(_) => lookup_metadata_ok(entries, entry_count, metadata, metadata_count),
            Err(Errno::EINVAL) => !lookup_metadata_ok(
                entries,
                entry_count,
                metadata,
                metadata_count,
            ),
            Err(e) => e == Errno::ENOMEM && lookup_metadata_asks(
                entries,
                entry_count,
                metadata,
                metadata_count,
            ),
        },
{
    let targets: Vec<Guid> = match lookup_target_guid_set(entries, entry_count) {
        Ok(guids) => guids,
        Err(e) => {
            return Err(e);
        },
    };
    let described: Vec<Guid> = match metadata_guid_set(metadata, metadata_count) {
        Ok(guids) => guids,
        Err(e) => {
            return Err(e);
        },
    };
    require_same_keys(&described, &targets)
}

/// The children and the metadata of an ENUM_CHILDREN reply belong together.
pub open spec fn enum_children_metadata_ok(
    children: Option<&[rsi_child_entry]>,
    child_count: u32,
    metadata: Option<&[rsi_key_metadata]>,
    metadata_count: u32,
) -> bool {
    &&& child_targets_ok(children, child_count)
    &&& c_array_present(metadata, metadata_count)
    &&& metadata_complete(
        child_targets(array_records(children, child_count)),
        array_records(metadata, metadata_count),
    )
}

/// Validating the metadata of an ENUM_CHILDREN reply asks for memory: for the keys that
/// the children name, or for those that the metadata is about.
pub open spec fn enum_children_metadata_asks(
    children: Option<&[rsi_child_entry]>,
    child_count: u32,
    metadata: Option<&[rsi_key_metadata]>,
    metadata_count: u32,
) -> bool {
    &&& c_array_present(children, child_count)
    &&& children_ask(c_array_view(children, child_count)) || (child_targets_ok(
        children,
        child_count,
    ) && c_array_present(metadata, metadata_count) && metadata_count != 0)
}

/// Refuses metadata that misses a key, repeats one, or is about a key that no child
/// names.
pub fn validate_enum_children_metadata(
    children: Option<&[rsi_child_entry]>,
    child_count: u32,
    metadata: Option<&[rsi_key_metadata]>,
    metadata_count: u32,
) -> (r: Result<(), Errno>)
    requires
        child_arrays_valid(children, child_count),
        c_array_valid(metadata, metadata_count),
    ensures
        match r {
            Ok(_) => enum_children_metadata_ok(children, child_count, metadata, metadata_count),
            Err(Errno::EINVAL) => !enum_children_metadata_ok(
                children,
                child_count,
                metadata,
                metadata_count,
            ),
            Err(e) => e == Errno::ENOMEM && enum_children_metadata_asks(
                children,
                child_count,
                metadata,
                metadata_count,
            ),
        },
{
    let targets: Vec<Guid> = match enum_children_target_guid_set(children, child_count) {
        Ok(guids) => guids,
        Err(e) => {
            return Err(e);
        },
    };
    let described: Vec<Guid> = match metadata_guid_set(metadata, metadata_count) {
        Ok(guids) => guids,
        Err(e) => {
            return Err(e);
        },
    };
    require_same_keys(&described, &targets)
}

} // verus!
