//! Which entries of a catalog a request asks for.

use crate::schema::{entry_views, texts, Entry, EntryView};
use vstd::prelude::*;

verus! {

/// Whether an entry that supports the types `supported` answers a request for
/// the types `requested`: at least one supported type is a requested one.
pub open spec fn entry_matches(requested: Seq<Seq<char>>, supported: Seq<Seq<char>>) -> bool {
    exists|index: int|
        0 <= index < supported.len() && requested.contains(#[trigger] supported[index])
}

/// The test that picks the entries that answer a request for `requested`.
pub open spec fn answers(requested: Seq<Seq<char>>) -> spec_fn(EntryView) -> bool {
    |entry: EntryView| entry_matches(requested, entry.supported_credential_types)
}

/// The entries that answer a request for `requested`, in catalog order.
pub open spec fn matching_entries(requested: Seq<Seq<char>>, entries: Seq<EntryView>) -> Seq<
    EntryView,
> {
    entries.filter(answers(requested))
}

/// The positions in the catalog of the entries that answer a request for
/// `requested`, in rising order.
pub open spec fn matching_indices(requested: Seq<Seq<char>>, entries: Seq<EntryView>) -> Seq<int>
    decreases entries.len(),
{
    if entries.len() == 0 {
        Seq::empty()
    } else {
        let before = matching_indices(requested, entries.drop_last());
        if entry_matches(requested, entries.last().supported_credential_types) {
            before.push(entries.len() - 1)
        } else {
            before
        }
    }
}

/// An entry answers a request exactly when the set of its supported types and
/// the set of requested types have a type in common.
pub proof fn lemma_match_is_intersection(requested: Seq<Seq<char>>, supported: Seq<Seq<char>>)
    ensures
        entry_matches(requested, supported) <==> requested.to_set().intersect(supported.to_set())
            != Set::<Seq<char>>::empty(),
{
    let common = requested.to_set().intersect(supported.to_set());
    if entry_matches(requested, supported) {
        let index = choose|index: int|
            0 <= index < supported.len() && requested.contains(#[trigger] supported[index]);
        assert(supported.contains(supported[index]));
        assert(common.contains(supported[index]));
    } else {
        assert forall|candidate: Seq<char>| !common.contains(candidate) by {
            if supported.contains(candidate) && requested.contains(candidate) {
                let index = choose|index: int|
                    0 <= index < supported.len() && supported[index] == candidate;
                assert(requested.contains(supported[index]));
            }
        }
        assert(common =~= Set::<Seq<char>>::empty());
    }
}

/// Whether an entry answers a request depends on the two sets of types
/// alone: neither the order of the types nor their repetition matters.
pub proof fn lemma_match_depends_on_sets(
    requested: Seq<Seq<char>>,
    supported: Seq<Seq<char>>,
    other_requested: Seq<Seq<char>>,
    other_supported: Seq<Seq<char>>,
)
    requires
        requested.to_set() == other_requested.to_set(),
        supported.to_set() == other_supported.to_set(),
    ensures
        entry_matches(requested, supported) == entry_matches(other_requested, other_supported),
{
    lemma_match_is_intersection(requested, supported);
    lemma_match_is_intersection(other_requested, other_supported);
}

/// Whether `positions` names every catalog position whose entry answers a
/// request for `requested`, names no other position, and names them in rising
/// order, so that none is named twice.
pub open spec fn each_match_once(
    positions: Seq<int>,
    requested: Seq<Seq<char>>,
    entries: Seq<EntryView>,
) -> bool {
    &&& forall|k: int|
        0 <= k < positions.len() ==> 0 <= #[trigger] positions[k] < entries.len()
            && entry_matches(requested, entries[positions[k]].supported_credential_types)
    &&& forall|j: int, k: int| 0 <= j < k < positions.len() ==> positions[j] < positions[k]
    &&& forall|index: int|
        0 <= index < entries.len() && entry_matches(
            requested,
            (#[trigger] entries[index]).supported_credential_types,
        ) ==> positions.contains(index)
}

/// Every entry that answers the request is picked exactly once, no other
/// entry is picked, and the picked entries keep their catalog order.
pub proof fn lemma_matched_exactly_once(requested: Seq<Seq<char>>, entries: Seq<EntryView>)
    ensures
        each_match_once(matching_indices(requested, entries), requested, entries),
        matching_entries(requested, entries) == matching_indices(requested, entries).map_values(
            |index: int| entries[index],
        ),
    decreases entries.len(),
{
    reveal(Seq::filter);
    let indices = matching_indices(requested, entries);
    if entries.len() > 0 {
        let shorter = entries.drop_last();
        let before = matching_indices(requested, shorter);
        lemma_matched_exactly_once(requested, shorter);
        assert forall|index: int|
            0 <= index < entries.len() && entry_matches(
                requested,
                (#[trigger] entries[index]).supported_credential_types,
            ) implies indices.contains(index) by {
            if index < entries.len() - 1 {
                assert(shorter[index] == entries[index]);
                assert(before.contains(index));
                let k = choose|k: int| 0 <= k < before.len() && before[k] == index;
                assert(indices[k] == index);
            } else {
                assert(indices[indices.len() - 1] == index);
            }
        }
        assert forall|k: int| 0 <= k < indices.len() implies 0 <= #[trigger] indices[k]
            < entries.len() && entry_matches(
            requested,
            entries[indices[k]].supported_credential_types,
        ) by {
            if k < before.len() {
                assert(indices[k] == before[k]);
                assert(shorter[before[k]] == entries[before[k]]);
            }
        }
        assert forall|j: int, k: int| 0 <= j < k < indices.len() implies indices[j]
            < indices[k] by {
            assert(indices[j] == before[j]);
            if k < before.len() {
                assert(indices[k] == before[k]);
            }
        }
        assert forall|k: int| 0 <= k < indices.len() implies matching_entries(
            requested,
            entries,
        )[k] == entries[#[trigger] indices[k]] by {
            if k < before.len() {
                assert(indices[k] == before[k]);
                assert(shorter[before[k]] == entries[before[k]]);
            }
        }
    }
    assert(matching_entries(requested, entries) =~= indices.map_values(
        |index: int| entries[index],
    ));
}

/// A request that names no type is answered by no entry, whatever the
/// catalog holds.
pub proof fn lemma_empty_request_matches_nothing(requested: Seq<Seq<char>>, entries: Seq<EntryView>)
    requires
        requested.len() == 0,
    ensures
        matching_entries(requested, entries).len() == 0,
        matching_indices(requested, entries).len() == 0,
    decreases entries.len(),
{
    reveal(Seq::filter);
    if entries.len() > 0 {
        lemma_empty_request_matches_nothing(requested, entries.drop_last());
    }
}

/// Whether `candidate` is one of the requested types.
pub fn type_requested(requested: &[String], candidate: &String) -> (found: bool)
    ensures
        found == texts(requested@).contains(candidate@),
{
    let mut index: usize = 0;
    while index < requested.len()
        invariant
            index <= requested@.len(),
            forall|k: int| 0 <= k < index ==> texts(requested@)[k] != candidate@,
        decreases requested@.len() - index,
    {
        if requested[index] == *candidate {
            assert(texts(requested@)[index as int] == candidate@);
            return true;
        }
        index = index + 1;
    }
    false
}

/// Whether `entry` answers a request for the types `requested`.
pub fn matches_request(requested: &[String], entry: &Entry) -> (matched: bool)
    ensures
        matched == entry_matches(texts(requested@), entry@.supported_credential_types),
{
    match &entry.supported_credential_types {
        Some(supported) => {
            let mut index: usize = 0;
            while index < supported.len()
                invariant
                    index <= supported@.len(),
                    entry@.supported_credential_types == texts(supported@),
                    forall|k: int|
                        0 <= k < index ==> !texts(requested@).contains(
                            #[trigger] texts(supported@)[k],
                        ),
                decreases supported@.len() - index,
            {
                if type_requested(requested, &supported[index]) {
                    assert(texts(requested@).contains(texts(supported@)[index as int]));
                    return true;
                }
                index = index + 1;
            }
            false
        },
        None => false,
    }
}

/// Whether `matches` refers, one for one, to the entries at `positions`.
pub open spec fn matches_at(matches: Seq<&Entry>, entries: Seq<Entry>, positions: Seq<int>) -> bool {
    &&& matches.len() == positions.len()
    &&& forall|k: int|
        0 <= k < matches.len() ==> 0 <= #[trigger] positions[k] < entries.len() && *matches[k]
            == entries[positions[k]]
}

/// The entries that answer a request for the types `requested`, in catalog
/// order: references to the entries at the matching positions.
pub fn find_matches<'a>(requested: &[String], entries: &'a [Entry]) -> (matches: Vec<&'a Entry>)
    ensures
        Seq::new(matches@.len(), |k: int| matches@[k]@) == matching_entries(
            texts(requested@),
            entry_views(entries@),
        ),
        matches_at(
            matches@,
            entries@,
            matching_indices(texts(requested@), entry_views(entries@)),
        ),
{
    let ghost wanted = texts(requested@);
    let ghost views = entry_views(entries@);
    let mut matches: Vec<&'a Entry> = Vec::new();
    let mut index: usize = 0;
    proof {
        reveal(Seq::filter);
        assert(views.take(0) =~= Seq::<EntryView>::empty());
    }
    while index < entries.len()
        invariant
            index <= entries@.len(),
            wanted == texts(requested@),
            views == entry_views(entries@),
            Seq::new(matches@.len(), |k: int| matches@[k]@) == matching_entries(
                wanted,
                views.take(index as int),
            ),
            matches_at(matches@, entries@, matching_indices(wanted, views.take(index as int))),
            forall|k: int|
                0 <= k < matches@.len() ==> (#[trigger] matching_indices(
                    wanted,
                    views.take(index as int),
                )[k]) < index,
        decreases entries@.len() - index,
    {
        let entry = &entries[index];
        let matched = matches_request(requested, entry);
        proof {
            reveal(Seq::filter);
            let longer = views.take(index + 1);
            assert(longer.drop_last() =~= views.take(index as int));
            assert(longer.last() == entry@);
        }
        if matched {
            matches.push(entry);
        }
        index = index + 1;
    }
    assert(views.take(index as int) =~= views);
    matches
}

} // verus!
