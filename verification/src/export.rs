//! The records that are handed to the host, one for each matching entry.

use crate::container::{Container, ContainerView};
use crate::matcher::{
    each_match_once, entry_matches, lemma_empty_request_matches_nothing,
    lemma_matched_exactly_once, matches_request, matching_entries, matching_indices,
};
use crate::schema::{entry_views, texts, Entry, EntryView};
use vstd::prelude::*;

verus! {

/// The provider name that every record carries.
pub const PROVIDER_NAME: &'static str = "default_provider";

/// What the host is told of one matching entry. The icon is a view into the
/// catalog buffer, the texts are views into the entry.
#[derive(Debug, Clone, Copy, PartialEq, Eq)]
pub struct ExportRecord<'a> {
    pub id: &'a str,
    pub icon: &'a [u8],
    pub username: &'a str,
    pub provider_name: &'a str,
    pub display_name: &'a str,
}

/// A record as the texts and bytes that it carries.
pub struct ExportRecordView {
    pub id: Seq<char>,
    pub icon: Seq<u8>,
    pub username: Seq<char>,
    pub provider_name: Seq<char>,
    pub display_name: Seq<char>,
}

impl<'a> View for ExportRecord<'a> {
    type V = ExportRecordView;

    open spec fn view(&self) -> ExportRecordView {
        ExportRecordView {
            id: self.id@,
            icon: self.icon@,
            username: self.username@,
            provider_name: self.provider_name@,
            display_name: self.display_name@,
        }
    }
}

/// The views of a list of records.
pub open spec fn record_views(records: Seq<ExportRecord>) -> Seq<ExportRecordView> {
    Seq::new(records.len(), |index: int| records[index]@)
}

/// The record for `entry`, with icons taken from `buffer` as `layout` says:
/// the entry's id and user name as they are, the fixed provider name, the
/// account name as display name (empty where the entry has none), and the
/// bytes of the icon that the entry names (none where it names no icon of
/// the table).
pub open spec fn record_of(
    entry: EntryView,
    layout: ContainerView,
    buffer: Seq<u8>,
) -> ExportRecordView {
    ExportRecordView {
        id: entry.id,
        icon: layout.icon_bytes(buffer, entry.display_info.icon_id),
        username: entry.display_info.user_name,
        provider_name: PROVIDER_NAME@,
        display_name: match entry.display_info.account_name {
            Some(name) => name,
            None => Seq::empty(),
        },
    }
}

/// The step from an entry to its record.
pub open spec fn to_record(layout: ContainerView, buffer: Seq<u8>) -> spec_fn(
    EntryView,
) -> ExportRecordView {
    |entry: EntryView| record_of(entry, layout, buffer)
}

/// The records for the entries that answer a request for `requested`, in
/// catalog order.
pub open spec fn exports(
    requested: Seq<Seq<char>>,
    entries: Seq<EntryView>,
    layout: ContainerView,
    buffer: Seq<u8>,
) -> Seq<ExportRecordView> {
    matching_entries(requested, entries).map_values(to_record(layout, buffer))
}

/// An entry whose icon id is past the end of the icon table, as every icon id
/// is where the table is empty, is exported with an empty icon and with the
/// other fields that it would have with any icon.
pub proof fn lemma_icon_out_of_range(entry: EntryView, layout: ContainerView, buffer: Seq<u8>)
    requires
        entry.display_info.icon_id is Some,
        entry.display_info.icon_id->0 >= layout.icon_table.len(),
    ensures
        record_of(entry, layout, buffer).icon == Seq::<u8>::empty(),
        record_of(entry, layout, buffer).id == entry.id,
        record_of(entry, layout, buffer).username == entry.display_info.user_name,
        record_of(entry, layout, buffer).provider_name == PROVIDER_NAME@,
        entry.display_info.account_name is Some ==> record_of(entry, layout, buffer).display_name
            == entry.display_info.account_name->0,
        entry.display_info.account_name is None ==> record_of(entry, layout, buffer).display_name
            == Seq::<char>::empty(),
{
}

/// The records are those of the catalog positions that answer the request,
/// each position once and in rising order: an entry is exported once where
/// it answers the request, and not at all where it does not.
pub proof fn lemma_exported_exactly_once(
    requested: Seq<Seq<char>>,
    entries: Seq<EntryView>,
    layout: ContainerView,
    buffer: Seq<u8>,
)
    ensures
        each_match_once(matching_indices(requested, entries), requested, entries),
        exports(requested, entries, layout, buffer) == matching_indices(
            requested,
            entries,
        ).map_values(|index: int| record_of(entries[index], layout, buffer)),
{
    lemma_matched_exactly_once(requested, entries);
}

/// A request that names no type has nothing exported, whatever the catalog
/// holds.
pub proof fn lemma_empty_request_exports_nothing(
    requested: Seq<Seq<char>>,
    entries: Seq<EntryView>,
    layout: ContainerView,
    buffer: Seq<u8>,
)
    requires
        requested.len() == 0,
    ensures
        exports(requested, entries, layout, buffer).len() == 0,
{
    lemma_empty_request_matches_nothing(requested, entries);
}

/// The record that tells the host of `entry`.
pub fn export_record<'a>(entry: &'a Entry, container: &Container<'a>) -> (record: ExportRecord<'a>)
    ensures
        record@ == record_of(entry@, container@, container.bytes()),
{
    let display_name: &'a str = match &entry.display_info.account_name {
        Some(name) => name.as_str(),
        None => {
            proof {
                reveal_strlit("");
            }
            ""
        },
    };
    let record = ExportRecord {
        id: entry.id.as_str(),
        icon: container.icon(entry.display_info.icon_id),
        username: entry.display_info.user_name.as_str(),
        provider_name: PROVIDER_NAME,
        display_name,
    };
    assert(record@.display_name =~= record_of(
        entry@,
        container@,
        container.bytes(),
    ).display_name);
    record
}

/// The record for `entry` where it answers a request for the types
/// `requested`, and nothing where it does not.
pub fn export_entry<'a>(requested: &[String], entry: &'a Entry, container: &Container<'a>) -> (record:
    Option<ExportRecord<'a>>)
    ensures
        record is Some <==> entry_matches(texts(requested@), entry@.supported_credential_types),
        record is Some ==> record->0@ == record_of(entry@, container@, container.bytes()),
{
    if matches_request(requested, entry) {
        Some(export_record(entry, container))
    } else {
        None
    }
}

/// The records for the entries that answer a request for the types
/// `requested`, one for each such entry, in catalog order.
pub fn export_matches<'a>(
    requested: &[String],
    entries: &'a [Entry],
    container: &Container<'a>,
) -> (records: Vec<ExportRecord<'a>>)
    ensures
        record_views(records@) == exports(
            texts(requested@),
            entry_views(entries@),
            container@,
            container.bytes(),
        ),
{
    let ghost wanted = texts(requested@);
    let ghost views = entry_views(entries@);
    let mut records: Vec<ExportRecord<'a>> = Vec::new();
    let mut index: usize = 0;
    proof {
        reveal(Seq::filter);
        assert(views.take(0) =~= Seq::<EntryView>::empty());
    }
    while index < entries.len()
        invariant
            index <= entries@.len(),
            wanted == texts(requested@),
            views == entry_views(entries@),
            record_views(records@) == exports(
                wanted,
                views.take(index as int),
                container@,
                container.bytes(),
            ),
        decreases entries@.len() - index,
    {
        let exported = export_entry(requested, &entries[index], container);
        let ghost before = matching_entries(wanted, views.take(index as int));
        let ghost longer = views.take(index + 1);
        proof {
            reveal(Seq::filter);
            assert(longer.drop_last() =~= views.take(index as int));
            assert(longer.last() == entries@[index as int]@);
        }
        match exported {
            Some(record) => {
                records.push(record);
                proof {
                    let step = to_record(container@, container.bytes());
                    assert(matching_entries(wanted, longer) == before.push(longer.last()));
                    assert(before.push(longer.last()).map_values(step) =~= before.map_values(
                        step,
                    ).push(step(longer.last())));
                }
            },
            None => {},
        }
        index = index + 1;
    }
    assert(views.take(index as int) =~= views);
    records
}

} // verus!
