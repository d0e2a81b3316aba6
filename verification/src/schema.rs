//! The request and the catalog as their JSON documents describe them.

use crate::text::{CatalogError, RequestError};
use vstd::prelude::*;

verus! {

/// A caller's request.
#[derive(Debug, Clone, PartialEq, Eq)]
pub struct Request {
    /// The credential types that the caller accepts, if it named any.
    pub credential_types: Option<Vec<String>>,
}

/// How an entry is shown to the user.
#[derive(Debug, Clone, PartialEq, Eq)]
pub struct DisplayInfo {
    pub user_name: String,
    /// Index of the entry's icon in the container's icon table.
    pub icon_id: Option<usize>,
    pub account_name: Option<String>,
}

/// One credential of the catalog.
#[derive(Debug, Clone, PartialEq, Eq)]
pub struct Entry {
    pub id: String,
    /// The credential types that the entry can serve, if it names any.
    pub supported_credential_types: Option<Vec<String>>,
    pub display_info: DisplayInfo,
}

/// The catalog of locally available credentials.
#[derive(Debug, Clone, PartialEq, Eq)]
pub struct Credentials {
    /// The entries in the order of the catalog, if it has any.
    pub entries: Option<Vec<Entry>>,
}

/// The texts of a list of strings.
pub open spec fn texts(strings: Seq<String>) -> Seq<Seq<char>> {
    Seq::new(strings.len(), |index: int| strings[index]@)
}

/// The texts of an optional list of strings; none where the list is absent.
pub open spec fn optional_texts(strings: Option<Vec<String>>) -> Seq<Seq<char>> {
    match strings {
        Some(list) => texts(list@),
        None => Seq::empty(),
    }
}

pub struct DisplayInfoView {
    pub user_name: Seq<char>,
    pub icon_id: Option<usize>,
    pub account_name: Option<Seq<char>>,
}

pub struct EntryView {
    pub id: Seq<char>,
    /// The supported credential types; none where the entry names none.
    pub supported_credential_types: Seq<Seq<char>>,
    pub display_info: DisplayInfoView,
}

impl View for DisplayInfo {
    type V = DisplayInfoView;

    open spec fn view(&self) -> DisplayInfoView {
        DisplayInfoView {
            user_name: self.user_name@,
            icon_id: self.icon_id,
            account_name: match self.account_name {
                Some(name) => Some(name@),
                None => None,
            },
        }
    }
}

impl View for Entry {
    type V = EntryView;

    open spec fn view(&self) -> EntryView {
        EntryView {
            id: self.id@,
            supported_credential_types: optional_texts(self.supported_credential_types),
            display_info: self.display_info@,
        }
    }
}

/// The views of a list of entries.
pub open spec fn entry_views(entries: Seq<Entry>) -> Seq<EntryView> {
    Seq::new(entries.len(), |index: int| entries[index]@)
}

impl View for Request {
    /// The requested credential types; none where the request names none.
    type V = Seq<Seq<char>>;

    open spec fn view(&self) -> Seq<Seq<char>> {
        optional_texts(self.credential_types)
    }
}

impl View for Credentials {
    /// The entries in catalog order; none where the catalog names none.
    type V = Seq<EntryView>;

    open spec fn view(&self) -> Seq<EntryView> {
        match self.entries {
            Some(entries) => entry_views(entries@),
            None => Seq::empty(),
        }
    }
}

/// The requested credential types of a request document; an error where the
/// request text was not the JSON of a request, which `parsed` tells by being
/// absent. A request that names no types asks for none.
pub fn decode_request(parsed: Option<Request>) -> (result: Result<Vec<String>, RequestError>)
    ensures
        match result {
            Ok(types) => parsed is Some && texts(types@) == parsed->0@,
            Err(error) => parsed is None && error == RequestError::InvalidRequest,
        },
{
    match parsed {
        Some(request) => match request.credential_types {
            Some(types) => Ok(types),
            None => Ok(Vec::new()),
        },
        None => Err(RequestError::InvalidRequest),
    }
}

/// The entries of a catalog document, in catalog order; an error where the
/// catalog text was not the JSON of a catalog, which `parsed` tells by being
/// absent. A catalog that names no entries has none.
pub fn decode_catalog(parsed: Option<Credentials>) -> (result: Result<Vec<Entry>, CatalogError>)
    ensures
        match result {
            Ok(entries) => parsed is Some && entry_views(entries@) == parsed->0@ && (
            parsed->0.entries is Some ==> entries == parsed->0.entries->0),
            Err(error) => parsed is None && error == CatalogError::InvalidCatalog,
        },
{
    match parsed {
        Some(catalog) => match catalog.entries {
            Some(entries) => Ok(entries),
            None => Ok(Vec::new()),
        },
        None => Err(CatalogError::InvalidCatalog),
    }
}

} // verus!
