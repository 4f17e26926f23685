//! Key GUIDs and ordered sets of them.
use vstd::prelude::*;

use crate::errno::Errno;

verus! {

/// A key GUID, in wire order.
pub type Guid = [u8; 16];

/// The GUID that names no key.
pub open spec fn is_nil(guid: Guid) -> bool {
    forall|i: int| 0 <= i < 16 ==> guid@[i] == 0
}

/// Lexicographic order on byte strings.
pub open spec fn lex_le(a: Seq<u8>, b: Seq<u8>) -> bool
    decreases a.len(),
{
    if a.len() == 0 {
        true
    } else if b.len() == 0 {
        false
    } else {
        a[0] < b[0] || (a[0] == b[0] && lex_le(a.skip(1), b.skip(1)))
    }
}

/// The order in which GUIDs are kept.
pub open spec fn guid_le(a: Guid, b: Guid) -> bool {
    lex_le(a@, b@)
}

/// Every GUID stands before the ones it precedes.
pub open spec fn sorted(guids: Seq<Guid>) -> bool {
    forall|i: int, j: int|
        0 <= i <= j < guids.len() ==> guid_le(#[trigger] guids[i], #[trigger] guids[j])
}

/// A sorted list without repetition: the one list that stands for its set of GUIDs.
pub open spec fn ordered_set(guids: Seq<Guid>) -> bool {
    sorted(guids) && guids.no_duplicates()
}

/// No GUID is nil and none occurs twice.
pub open spec fn unique_nonzero(guids: Seq<Guid>) -> bool {
    &&& guids.no_duplicates()
    &&& forall|i: int| 0 <= i < guids.len() ==> !is_nil(#[trigger] guids[i])
}

proof fn lemma_lex_total(a: Seq<u8>, b: Seq<u8>)
    requires
        a.len() == b.len(),
    ensures
        lex_le(a, b) || lex_le(b, a),
        lex_le(a, b) && lex_le(b, a) ==> a == b,
    decreases a.len(),
{
    if a.len() > 0 {
        lemma_lex_total(a.skip(1), b.skip(1));
        if lex_le(a, b) && lex_le(b, a) {
            assert(a.skip(1) == b.skip(1));
            assert forall|i: int| 0 <= i < a.len() implies a[i] == b[i] by {
                if i > 0 {
                    assert(a.skip(1)[i - 1] == a[i]);
                    assert(b.skip(1)[i - 1] == b[i]);
                }
            }
            assert(a =~= b);
        }
    } else {
        assert(a =~= b);
    }
}

proof fn lemma_lex_zero_least(a: Seq<u8>, b: Seq<u8>)
    requires
        a.len() == b.len(),
        forall|i: int| 0 <= i < a.len() ==> a[i] == 0,
    ensures
        lex_le(a, b),
    decreases a.len(),
{
    if a.len() > 0 {
        assert forall|i: int| 0 <= i < a.skip(1).len() implies a.skip(1)[i] == 0 by {
            assert(a.skip(1)[i] == a[i + 1]);
        }
        lemma_lex_zero_least(a.skip(1), b.skip(1));
    }
}

proof fn lemma_guid_antisymmetric(a: Guid, b: Guid)
    requires
        guid_le(a, b),
        guid_le(b, a),
    ensures
        a == b,
{
    lemma_lex_total(a@, b@);
    assert(a =~= b);
}

proof fn lemma_nil_least(nil: Guid, guid: Guid)
    requires
        is_nil(nil),
    ensures
        guid_le(nil, guid),
        is_nil(guid) ==> nil == guid,
{
    lemma_lex_zero_least(nil@, guid@);
    if is_nil(guid) {
        lemma_lex_zero_least(guid@, nil@);
        lemma_guid_antisymmetric(nil, guid);
    }
}

/// Two ordered lists of the same GUIDs are the same list.
pub proof fn ordered_set_is_canonical(a: Seq<Guid>, b: Seq<Guid>)
    requires
        ordered_set(a),
        ordered_set(b),
        a.to_set() == b.to_set(),
    ensures
        a == b,
    decreases a.len(),
{
    broadcast use vstd::seq_lib::group_seq_properties;

    if a.len() == 0 {
        if b.len() > 0 {
            assert(b.to_set().contains(b[0]));
            assert(a.contains(b[0]));
        }
        assert(a =~= b);
    } else {
        assert(a.to_set().contains(a.last()));
        assert(b.contains(a.last()));
        assert(b.to_set().contains(b.last()));
        assert(a.contains(b.last()));
        let i = choose|i: int| 0 <= i < b.len() && b[i] == a.last();
        let j = choose|j: int| 0 <= j < a.len() && a[j] == b.last();
        assert(guid_le(b[i], b[b.len() - 1]));
        assert(guid_le(a[j], a[a.len() - 1]));
        lemma_guid_antisymmetric(a.last(), b.last());
        let a1 = a.drop_last();
        let b1 = b.drop_last();
        assert(ordered_set(a1));
        assert(ordered_set(b1));
        assert forall|g: Guid| a1.to_set().contains(g) implies b1.to_set().contains(g) by {
            let k = choose|k: int| 0 <= k < a1.len() && a1[k] == g;
            assert(a[k] == g);
            assert(a.to_set().contains(g));
            assert(b.contains(g));
            let m = choose|m: int| 0 <= m < b.len() && b[m] == g;
            assert(m != b.len() - 1);
            assert(b1[m] == g);
        }
        assert forall|g: Guid| b1.to_set().contains(g) implies a1.to_set().contains(g) by {
            let k = choose|k: int| 0 <= k < b1.len() && b1[k] == g;
            assert(b[k] == g);
            assert(b.to_set().contains(g));
            assert(a.contains(g));
            let m = choose|m: int| 0 <= m < a.len() && a[m] == g;
            assert(m != a.len() - 1);
            assert(a1[m] == g);
        }
        assert(a1.to_set() =~= b1.to_set());
        ordered_set_is_canonical(a1, b1);
        assert(a =~= a1.push(a.last()));
        assert(b =~= b1.push(b.last()));
    }
}

/// A rearrangement has the same GUIDs, and repeats one exactly where the list it came
/// from does.
pub proof fn lemma_rearranged(a: Seq<Guid>, b: Seq<Guid>)
    requires
        a.to_multiset() == b.to_multiset(),
    ensures
        a.to_set() == b.to_set(),
        a.len() == b.len(),
        a.no_duplicates() <==> b.no_duplicates(),
{
    broadcast use vstd::seq_lib::group_to_multiset_ensures;

    assert(a.len() == a.to_multiset().len());
    assert(b.len() == b.to_multiset().len());
    assert forall|g: Guid| a.to_set().contains(g) == b.to_set().contains(g) by {
        assert(a.contains(g) <==> a.to_multiset().count(g) > 0);
        assert(b.contains(g) <==> b.to_multiset().count(g) > 0);
    }
    assert(a.to_set() =~= b.to_set());
    if a.no_duplicates() {
        a.lemma_multiset_has_no_duplicates();
        b.lemma_multiset_has_no_duplicates_conv();
    }
    if b.no_duplicates() {
        b.lemma_multiset_has_no_duplicates();
        a.lemma_multiset_has_no_duplicates_conv();
    }
}

/// Calls `<[Guid]>::sort_unstable` of std. The claim is what its documentation says:
/// the elements are rearranged into ascending order, and byte arrays are ordered
/// lexicographically.
#[verifier::external_body]
fn sort_guids(guids: &mut [Guid])
    ensures
        final(guids)@.to_multiset() == old(guids)@.to_multiset(),
        sorted(final(guids)@),
{
    guids.sort_unstable();
}

/// Whether two GUIDs are the same.
pub fn guid_eq(a: &Guid, b: &Guid) -> (r: bool)
    ensures
        r == (*a == *b),
{
    let mut i: usize = 0;
    while i < 16
        invariant
            i <= 16,
            forall|k: int| 0 <= k < i ==> a@[k] == b@[k],
        decreases 16 - i,
    {
        if a[i] != b[i] {
            return false;
        }
        i += 1;
    }
    assert(*a =~= *b);
    true
}

/// Whether a GUID is the nil GUID.
pub fn guid_is_nil(guid: &Guid) -> (r: bool)
    ensures
        r == is_nil(*guid),
{
    let mut i: usize = 0;
    while i < 16
        invariant
            i <= 16,
            forall|k: int| 0 <= k < i ==> guid@[k] == 0,
        decreases 16 - i,
    {
        if guid[i] != 0 {
            return false;
        }
        i += 1;
    }
    true
}

/// Whether two lists hold the same GUIDs in the same order.
pub fn same_guids(a: &Vec<Guid>, b: &Vec<Guid>) -> (r: bool)
    ensures
        r == (a@ == b@),
{
    if a.len() != b.len() {
        return false;
    }
    let mut i: usize = 0;
    while i < a.len()
        invariant
            i <= a@.len(),
            a@.len() == b@.len(),
            forall|k: int| 0 <= k < i ==> a@[k] == b@[k],
        decreases a@.len() - i,
    {
        if !guid_eq(&a[i], &b[i]) {
            return false;
        }
        i += 1;
    }
    assert(a@ =~= b@);
    true
}

/// An empty list with room for `capacity` GUIDs. Room for none is always there, and room
/// for more than `isize::MAX` bytes, which no list can have, never is; between the two it
/// is the allocator's to say. The room a list has is no part of its contents, so that the
/// contract speaks of the contents alone.
pub fn guid_vec_with_capacity(capacity: usize) -> (r: Result<Vec<Guid>, Errno>)
    ensures
        match r {
            Ok(guids) => guids@ == Seq::<Guid>::empty() && 16 * capacity <= isize::MAX,
            Err(e) => e == Errno::ENOMEM && capacity != 0,
        },
{
    let mut guids: Vec<Guid> = Vec::new();
    if capacity == 0 {
        return Ok(guids);
    }
    if capacity > isize::MAX as usize / 16 || guids.try_reserve(capacity).is_err() {
        return Err(Errno::ENOMEM);
    }
    Ok(guids)
}

/// Appends one GUID where memory for it has been `reserved`, and leaves the list as it is
/// where it has not.
pub fn push_reserved(guids: &mut Vec<Guid>, guid: Guid, reserved: bool) -> (r: Result<(), Errno>)
    ensures
        r == (if reserved {
            Ok::<(), Errno>(())
        } else {
            Err(Errno::ENOMEM)
        }),
        final(guids)@ == (if reserved {
            old(guids)@.push(guid)
        } else {
            old(guids)@
        }),
{
    if !reserved {
        return Err(Errno::ENOMEM);
    }
    guids.push(guid);
    Ok(())
}

/// Appends one GUID, or leaves the list as it is where no memory can be had.
pub fn push_guid(guids: &mut Vec<Guid>, guid: Guid) -> (r: Result<(), Errno>)
    ensures
        match r {
            Ok(_) => final(guids)@ == old(guids)@.push(guid),
            Err(e) => e == Errno::ENOMEM && final(guids)@ == old(guids)@,
        },
{
    let reserved: bool = guids.try_reserve(1).is_ok();
    push_reserved(guids, guid, reserved)
}

/// Sorts the list, and refuses it where a GUID is nil or occurs twice.
pub fn validate_unique_nonzero_guids(guids: &mut [Guid]) -> (r: Result<(), Errno>)
    ensures
        final(guids)@.to_multiset() == old(guids)@.to_multiset(),
        final(guids)@.to_set() == old(guids)@.to_set(),
        sorted(final(guids)@),
        r == (if unique_nonzero(old(guids)@) {
            Ok::<(), Errno>(())
        } else {
            Err(Errno::EINVAL)
        }),
        r is Ok ==> ordered_set(final(guids)@),
{
    let ghost before = guids@;
    sort_guids(guids);
    let ghost after = guids@;
    proof {
        lemma_rearranged(before, after);
        assert forall|g: Guid| before.contains(g) == after.contains(g) by {
            assert(before.to_set().contains(g) == after.to_set().contains(g));
        }
    }
    let len: usize = guids.len();
    if len > 0 && guid_is_nil(&guids[0]) {
        assert(before.contains(after[0]));
        return Err(Errno::EINVAL);
    }
    assert forall|i: int| 0 <= i < after.len() implies !is_nil(#[trigger] after[i]) by {
        if is_nil(after[i]) {
            assert(guid_le(after[0], after[i]));
            lemma_nil_least(after[i], after[0]);
            lemma_guid_antisymmetric(after[0], after[i]);
        }
    }
    assert forall|i: int| 0 <= i < before.len() implies !is_nil(#[trigger] before[i]) by {
        assert(before.contains(before[i]));
        assert(after.contains(before[i]));
    }
    let mut i: usize = 1;
    while i < len
        invariant
            guids@ == after,
            before == old(guids)@,
            after.to_multiset() == before.to_multiset(),
            after.to_set() == before.to_set(),
            len == after.len(),
            1 <= i,
            sorted(after),
            before.no_duplicates() <==> after.no_duplicates(),
            forall|j: int, k: int| 0 <= j < k < i && k < len ==> after[j] != after[k],
        decreases len - i,
    {
        if guid_eq(&guids[i - 1], &guids[i]) {
            assert(after[i - 1] == after[i as int]);
            return Err(Errno::EINVAL);
        }
        assert forall|j: int, k: int| 0 <= j < k < i + 1 && k < len implies after[j] != after[k] by {
            if k == i && after[j] == after[k] && j < i - 1 {
                assert(guid_le(after[j], after[i - 1]));
                assert(guid_le(after[i - 1], after[k]));
                lemma_guid_antisymmetric(after[i - 1], after[k]);
            }
        }
        i += 1;
    }
    assert(after.no_duplicates());
    Ok(())
}

/// Turns the list into the ordered set of its GUIDs.
pub fn sort_dedup_guids(guids: &mut Vec<Guid>)
    ensures
        ordered_set(final(guids)@),
        final(guids)@.to_set() == old(guids)@.to_set(),
{
    let ghost before = guids@;
    sort_guids(guids.as_mut_slice());
    let ghost after = guids@;
    proof {
        lemma_rearranged(before, after);
    }
    let len: usize = guids.len();
    if len == 0 {
        return;
    }
    let mut kept: usize = 1;
    let mut next: usize = 1;
    proof {
        let first = guids@.take(1);
        assert(first =~= after.take(1));
        assert(first[0] == after[0]);
        lemma_lex_total(first[0]@, first[0]@);
    }
    while next < len
        invariant
            1 <= kept <= next <= len,
            len == after.len(),
            guids@.len() == len,
            sorted(after),
            forall|k: int| next <= k < len ==> guids@[k] == after[k],
            ordered_set(guids@.take(kept as int)),
            guids@[kept - 1] == after[next - 1],
            forall|k: int| 0 <= k < kept ==> after.take(next as int).contains(#[trigger] guids@[k]),
            forall|k: int| 0 <= k < next ==> guids@.take(kept as int).contains(#[trigger] after[k]),
        decreases len - next,
    {
        let ghost prior = guids@;
        let same: bool = guid_eq(&guids[kept - 1], &guids[next]);
        if !same {
            let guid: Guid = guids[next];
            guids[kept] = guid;
            kept += 1;
        }
        next += 1;
        proof {
            let n = next as int;
            let k0 = if same { kept as int } else { kept - 1 };
            let prefix = prior.take(k0);
            let seen = after.take(n - 1);
            assert(guids@.take(k0) =~= prefix);
            assert forall|k: int| 0 <= k < kept implies after.take(n).contains(#[trigger] guids@[k]) by {
                if k < k0 {
                    assert(prior[k] == guids@[k]);
                    assert(seen.contains(prior[k]));
                    let m = choose|m: int| 0 <= m < seen.len() && seen[m] == prior[k];
                    assert(after.take(n)[m] == guids@[k]);
                } else {
                    assert(after.take(n)[n - 1] == guids@[k]);
                }
            }
            assert forall|k: int| 0 <= k < n implies guids@.take(kept as int).contains(#[trigger] after[k]) by {
                if k < n - 1 {
                    let m = choose|m: int| 0 <= m < prefix.len() && prefix[m] == after[k];
                    assert(guids@.take(kept as int)[m] == after[k]);
                } else {
                    assert(guids@.take(kept as int)[kept - 1] == after[k]);
                }
            }
            let now = guids@.take(kept as int);
            if !same {
                assert forall|i: int, j: int| 0 <= i <= j < now.len() implies guid_le(
                    #[trigger] now[i],
                    #[trigger] now[j],
                ) by {
                    if j < k0 {
                        assert(prefix[i] == now[i] && prefix[j] == now[j]);
                    } else if i < k0 {
                        assert(seen.contains(prior[i]));
                        let m = choose|m: int| 0 <= m < seen.len() && seen[m] == prior[i];
                        assert(guid_le(after[m], after[n - 1]));
                    } else {
                        lemma_lex_total(now[i]@, now[j]@);
                    }
                }
                assert forall|i: int, j: int| 0 <= i < now.len() && 0 <= j < now.len() && i != j implies now[i]
                    != now[j] by {
                    if i < k0 && j < k0 {
                        assert(prefix[i] == now[i] && prefix[j] == now[j]);
                    } else {
                        let lo = if i < j { i } else { j };
                        if now[lo] == now[k0] {
                            assert(prefix[lo] == now[lo] && prefix[k0 - 1] == prior[k0 - 1]);
                            assert(guid_le(prefix[lo], prefix[k0 - 1]));
                            assert(guid_le(after[n - 2], after[n - 1]));
                            lemma_guid_antisymmetric(prior[k0 - 1], now[k0]);
                        }
                    }
                }
            } else {
                assert(now =~= prefix);
            }
        }
    }
    guids.truncate(kept);
    proof {
        let done = guids@;
        assert(after.take(len as int) =~= after);
        assert forall|g: Guid| done.to_set().contains(g) == after.to_set().contains(g) by {
            if done.contains(g) {
                let k = choose|k: int| 0 <= k < done.len() && done[k] == g;
                assert(after.take(len as int).contains(done[k]));
            }
            if after.contains(g) {
                let k = choose|k: int| 0 <= k < after.len() && after[k] == g;
                assert(done.contains(after[k]));
            }
        }
        assert(done.to_set() =~= after.to_set());
    }
}

} // verus!
