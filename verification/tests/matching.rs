use credential_matcher::container::{decode_container, Container};
use credential_matcher::export::{
    export_entry, export_matches, export_record, ExportRecord, PROVIDER_NAME,
};
use credential_matcher::matcher::{find_matches, matches_request, type_requested};
use credential_matcher::schema::{
    decode_catalog, decode_request, Credentials, DisplayInfo, Entry, Request,
};
use credential_matcher::text::{catalog_text, request_text, CatalogError, RequestError};

fn strings(items: &[&str]) -> Vec<String> {
    items.iter().map(|item| item.to_string()).collect()
}

fn entry(id: &str, supported: Option<&[&str]>, icon_id: Option<usize>, account: Option<&str>) -> Entry {
    Entry {
        id: id.to_string(),
        supported_credential_types: supported.map(strings),
        display_info: DisplayInfo {
            user_name: format!("user of {id}"),
            icon_id,
            account_name: account.map(|name| name.to_string()),
        },
    }
}

/// A container whose payload region holds `payload` and whose icons are
/// `icons`.
fn catalog_container(payload: &[u8], icons: &[&[u8]]) -> Vec<u8> {
    let mut bytes = Vec::new();
    bytes.extend_from_slice(&(12 + 4 * icons.len() as i32).to_ne_bytes());
    bytes.extend_from_slice(&(payload.len() as i32).to_ne_bytes());
    bytes.extend_from_slice(&(icons.len() as i32).to_ne_bytes());
    for icon in icons {
        bytes.extend_from_slice(&(icon.len() as i32).to_ne_bytes());
    }
    bytes.extend_from_slice(payload);
    for icon in icons {
        bytes.extend_from_slice(icon);
    }
    bytes
}

fn string_list(value: Option<&serde_json::Value>) -> Option<Vec<String>> {
    value.map(|list| {
        list.as_array()
            .unwrap()
            .iter()
            .map(|item| item.as_str().unwrap().to_string())
            .collect()
    })
}

/// The request that a JSON text describes, read field by field.
fn request_from_json(text: &str) -> Option<Request> {
    let document: serde_json::Value = serde_json::from_str(text).ok()?;
    Some(Request { credential_types: string_list(document.get("credentialTypes")) })
}

/// The catalog that a JSON text describes, read field by field.
fn catalog_from_json(text: &str) -> Option<Credentials> {
    let document: serde_json::Value = serde_json::from_str(text).ok()?;
    let entries = document.get("entries").map(|list| {
        list.as_array()
            .unwrap()
            .iter()
            .map(|item| {
                let display = item.get("display_info").unwrap();
                Entry {
                    id: item.get("id").unwrap().as_str().unwrap().to_string(),
                    supported_credential_types: string_list(item.get("supported_credential_types")),
                    display_info: DisplayInfo {
                        user_name: display.get("user_name").unwrap().as_str().unwrap().to_string(),
                        icon_id: display.get("icon_id").map(|id| id.as_u64().unwrap() as usize),
                        account_name: display
                            .get("account_name")
                            .map(|name| name.as_str().unwrap().to_string()),
                    },
                }
            })
            .collect()
    });
    Some(Credentials { entries })
}

fn ids<'a>(records: &[ExportRecord<'a>]) -> Vec<&'a str> {
    records.iter().map(|record| record.id).collect()
}

fn empty_container_bytes() -> Vec<u8> {
    catalog_container(b"{}", &[])
}

fn exported_ids(requested: &[String], entries: &[Entry], container: &Container) -> Vec<String> {
    export_matches(requested, entries, container).iter().map(|record| record.id.to_string()).collect()
}

#[test]
fn request_for_type_a_exports_the_entry_that_supports_it() {
    let request_bytes = b"{\"credentialTypes\":[\"typeA\"]}";
    let payload = b"{\"entries\":[\
        {\"id\":\"entry1\",\"supported_credential_types\":[\"typeA\"],\
         \"display_info\":{\"user_name\":\"alice\",\"account_name\":\"Alice A.\"}},\
        {\"id\":\"entry2\",\"supported_credential_types\":[\"typeB\"],\
         \"display_info\":{\"user_name\":\"bob\"}}]}";
    let catalog_bytes = catalog_container(payload, &[]);

    let container = decode_container(&catalog_bytes).unwrap();
    let requested = decode_request(request_from_json(request_text(request_bytes).unwrap())).unwrap();
    let entries = decode_catalog(catalog_from_json(catalog_text(&container).unwrap())).unwrap();
    let records = export_matches(&requested, &entries, &container);

    assert_eq!(records.len(), 1);
    assert_eq!(
        records[0],
        ExportRecord {
            id: "entry1",
            icon: b"",
            username: "alice",
            provider_name: "default_provider",
            display_name: "Alice A.",
        }
    );
}

#[test]
fn padded_catalog_is_decoded_and_matched() {
    let request_bytes = b"{\"credentialTypes\":[\"passkey\"]}";
    let mut payload = b"{\"entries\":[{\"id\":\"k1\",\"supported_credential_types\":[\"passkey\"],\
        \"display_info\":{\"user_name\":\"carol\",\"icon_id\":1}}]}"
        .to_vec();
    payload.extend_from_slice(&[0u8; 37]);
    let catalog_bytes = catalog_container(&payload, &[b"first", b"second"]);

    let container = decode_container(&catalog_bytes).unwrap();
    assert_eq!(container.creds_size(), payload.len());
    let requested = decode_request(request_from_json(request_text(request_bytes).unwrap())).unwrap();
    let entries = decode_catalog(catalog_from_json(catalog_text(&container).unwrap())).unwrap();
    let records = export_matches(&requested, &entries, &container);

    assert_eq!(records.len(), 1);
    assert_eq!(records[0].id, "k1");
    assert_eq!(records[0].icon, b"second");
    assert_eq!(records[0].username, "carol");
    assert_eq!(records[0].provider_name, "default_provider");
    assert_eq!(records[0].display_name, "");
}

#[test]
fn decode_request_gives_the_requested_types() {
    let request = Request { credential_types: Some(strings(&["a", "b", "a"])) };
    assert_eq!(decode_request(Some(request)), Ok(strings(&["a", "b", "a"])));
}

#[test]
fn request_without_types_asks_for_none() {
    assert_eq!(decode_request(Some(Request { credential_types: None })), Ok(Vec::new()));
    assert_eq!(decode_request(Some(Request { credential_types: Some(Vec::new()) })), Ok(Vec::new()));
}

#[test]
fn request_that_did_not_parse_is_invalid() {
    assert_eq!(decode_request(None), Err(RequestError::InvalidRequest));
    assert_eq!(decode_request(request_from_json("{\"credentialTypes\":")), Err(RequestError::InvalidRequest));
}

#[test]
fn decode_catalog_gives_the_entries_in_order() {
    let entries = vec![
        entry("z", Some(&["t"]), None, None),
        entry("a", None, Some(3), Some("acct")),
        entry("m", Some(&[]), None, None),
    ];
    let decoded = decode_catalog(Some(Credentials { entries: Some(entries.clone()) })).unwrap();
    assert_eq!(decoded, entries);
}

#[test]
fn catalog_without_entries_has_none() {
    assert_eq!(decode_catalog(Some(Credentials { entries: None })), Ok(Vec::new()));
}

#[test]
fn catalog_that_did_not_parse_is_invalid() {
    assert_eq!(decode_catalog(None), Err(CatalogError::InvalidCatalog));
    assert_eq!(decode_catalog(catalog_from_json("not json")), Err(CatalogError::InvalidCatalog));
}

#[test]
fn type_requested_tells_membership() {
    let requested = strings(&["alpha", "beta"]);
    assert!(type_requested(&requested, &"alpha".to_string()));
    assert!(type_requested(&requested, &"beta".to_string()));
    assert!(!type_requested(&requested, &"gamma".to_string()));
    assert!(!type_requested(&requested, &"alph".to_string()));
    assert!(!type_requested(&[], &"alpha".to_string()));
}

#[test]
fn entry_matches_when_one_supported_type_is_requested() {
    let requested = strings(&["x", "y"]);
    assert!(matches_request(&requested, &entry("1", Some(&["q", "y"]), None, None)));
    assert!(matches_request(&requested, &entry("2", Some(&["x"]), None, None)));
    assert!(!matches_request(&requested, &entry("3", Some(&["q", "r"]), None, None)));
    assert!(!matches_request(&requested, &entry("4", Some(&[]), None, None)));
    assert!(!matches_request(&requested, &entry("5", None, None, None)));
}

#[test]
fn duplicates_do_not_change_the_outcome() {
    let requested = strings(&["x", "x", "y", "x"]);
    let entries = vec![
        entry("1", Some(&["x", "x"]), None, None),
        entry("2", Some(&["z", "z"]), None, None),
        entry("3", Some(&["y", "x", "y"]), None, None),
    ];
    let bytes = empty_container_bytes();
    let container = decode_container(&bytes).unwrap();
    assert_eq!(exported_ids(&requested, &entries, &container), ["1", "3"]);
}

#[test]
fn matches_keep_catalog_order() {
    let requested = strings(&["t"]);
    let entries = vec![
        entry("c", Some(&["t"]), None, None),
        entry("skip", Some(&["u"]), None, None),
        entry("a", Some(&["t"]), None, None),
        entry("b", Some(&["u", "t"]), None, None),
        entry("none", None, None, None),
    ];
    let matches = find_matches(&requested, &entries);
    let found: Vec<&str> = matches.iter().map(|entry| entry.id.as_str()).collect();
    assert_eq!(found, ["c", "a", "b"]);
    assert!(std::ptr::eq(matches[0], &entries[0]));
    assert!(std::ptr::eq(matches[1], &entries[2]));
    assert!(std::ptr::eq(matches[2], &entries[3]));

    let bytes = empty_container_bytes();
    let container = decode_container(&bytes).unwrap();
    assert_eq!(ids(&export_matches(&requested, &entries, &container)), ["c", "a", "b"]);
}

#[test]
fn each_entry_is_exported_once_if_and_only_if_it_matches() {
    let requested = strings(&["p", "q"]);
    let entries = vec![
        entry("same", Some(&["p"]), None, None),
        entry("same", Some(&["p"]), None, None),
        entry("other", Some(&["r"]), None, None),
        entry("both", Some(&["q", "p"]), None, None),
    ];
    let bytes = empty_container_bytes();
    let container = decode_container(&bytes).unwrap();
    let records = export_matches(&requested, &entries, &container);
    assert_eq!(ids(&records), ["same", "same", "both"]);
    for item in &entries {
        let expected = item
            .supported_credential_types
            .iter()
            .flatten()
            .any(|supported| requested.contains(supported));
        assert_eq!(matches_request(&requested, item), expected);
        assert_eq!(export_entry(&requested, item, &container).is_some(), expected);
    }
}

#[test]
fn empty_request_exports_nothing() {
    let entries = vec![
        entry("1", Some(&["a"]), None, None),
        entry("2", Some(&[""]), None, None),
        entry("3", None, None, None),
    ];
    let bytes = empty_container_bytes();
    let container = decode_container(&bytes).unwrap();
    let omitted = decode_request(Some(Request { credential_types: None })).unwrap();
    assert!(export_matches(&omitted, &entries, &container).is_empty());
    assert!(find_matches(&omitted, &entries).is_empty());
    let empty = decode_request(Some(Request { credential_types: Some(Vec::new()) })).unwrap();
    assert!(export_matches(&empty, &entries, &container).is_empty());
    assert!(find_matches(&empty, &entries).is_empty());
}

#[test]
fn empty_catalog_exports_nothing() {
    let bytes = empty_container_bytes();
    let container = decode_container(&bytes).unwrap();
    assert!(export_matches(&strings(&["a"]), &[], &container).is_empty());
}

#[test]
fn record_carries_the_icon_that_the_entry_names() {
    let bytes = catalog_container(b"{}", &[b"zero", b"", b"two"]);
    let container = decode_container(&bytes).unwrap();
    let first = entry("e0", Some(&["t"]), Some(0), None);
    let second = entry("e1", Some(&["t"]), Some(1), None);
    let third = entry("e2", Some(&["t"]), Some(2), None);
    assert_eq!(export_record(&first, &container).icon, b"zero");
    assert_eq!(export_record(&second, &container).icon, b"");
    assert_eq!(export_record(&third, &container).icon, b"two");
}

#[test]
fn icon_id_past_the_table_gives_an_empty_icon() {
    let bytes = catalog_container(b"{}", &[b"only"]);
    let container = decode_container(&bytes).unwrap();
    let item = entry("e", Some(&["t"]), Some(1), Some("Account"));
    let record = export_entry(&strings(&["t"]), &item, &container).unwrap();
    assert_eq!(
        record,
        ExportRecord {
            id: "e",
            icon: b"",
            username: "user of e",
            provider_name: "default_provider",
            display_name: "Account",
        }
    );
    let far = entry("far", Some(&["t"]), Some(usize::MAX), None);
    assert_eq!(export_record(&far, &container).icon, b"");
}

#[test]
fn icon_id_without_a_table_gives_an_empty_icon() {
    let bytes = empty_container_bytes();
    let container = decode_container(&bytes).unwrap();
    let item = entry("e", Some(&["t"]), Some(0), None);
    let record = export_record(&item, &container);
    assert_eq!(record.icon, b"");
    assert_eq!(record.id, "e");
    assert_eq!(record.username, "user of e");
    assert_eq!(record.display_name, "");
}

#[test]
fn entry_without_icon_id_has_no_icon() {
    let bytes = catalog_container(b"{}", &[b"icon"]);
    let container = decode_container(&bytes).unwrap();
    let item = entry("e", Some(&["t"]), None, None);
    assert_eq!(export_record(&item, &container).icon, b"");
}

#[test]
fn display_name_is_the_account_name() {
    let bytes = empty_container_bytes();
    let container = decode_container(&bytes).unwrap();
    let named = entry("n", None, None, Some("Work account"));
    let unnamed = entry("u", None, None, None);
    assert_eq!(export_record(&named, &container).display_name, "Work account");
    assert_eq!(export_record(&unnamed, &container).display_name, "");
}

#[test]
fn provider_name_is_fixed() {
    assert_eq!(PROVIDER_NAME, "default_provider");
    let bytes = empty_container_bytes();
    let container = decode_container(&bytes).unwrap();
    let item = entry("provider", None, None, Some("account"));
    assert_eq!(export_record(&item, &container).provider_name, "default_provider");
}

#[test]
fn entry_that_does_not_match_is_not_exported() {
    let bytes = empty_container_bytes();
    let container = decode_container(&bytes).unwrap();
    let item = entry("e", Some(&["other"]), None, None);
    assert_eq!(export_entry(&strings(&["t"]), &item, &container), None);
}
