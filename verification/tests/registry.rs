//! End-to-end tests of the device registry: registration, pings,
//! configuration pushes, and the identifier codec.

use moon_registry::device_id::parse_device_id;
use moon_registry::{ApiError, JsonValue, Store, MAC};

fn object(pairs: Vec<(&str, JsonValue)>) -> JsonValue {
    JsonValue::Object(pairs.into_iter().map(|(k, v)| (k.to_string(), v)).collect())
}

#[test]
fn register_then_read_back() {
    let mut store = Store::new();
    let id = store.register("AA:BB:CC:DD:EE:FF".to_string(), 1_700_000_000_000).unwrap();
    let rec = store.get_record(id).expect("registered record must exist");
    assert_eq!(rec.mac_address, "AA:BB:CC:DD:EE:FF");
    assert_eq!(rec.last_connected, 1_700_000_000_000);
    assert_eq!(rec.config_data.len(), 0);
}

#[test]
fn ping_reports_previous_and_advances() {
    let mut store = Store::new();
    let id = store.register("00:11:22:33:44:55".to_string(), 1000).unwrap();
    let hex = id.to_hex();
    let previous = store.ping(&hex, 2000).unwrap();
    assert_eq!(previous, 1000);
    assert_eq!(store.get_record(id).unwrap().last_connected, 2000);
    let previous = store.ping(&hex, 3500).unwrap();
    assert_eq!(previous, 2000);
    assert_eq!(store.get_record(id).unwrap().last_connected, 3500);
}

#[test]
fn malformed_ids_are_rejected_without_store_change() {
    let mut store = Store::new();
    let id = store.register("AA".to_string(), 42).unwrap();
    // Wrong length.
    assert_eq!(store.ping("abc123", 99), Err(ApiError::InvalidIdentifier));
    // Right length, wrong charset.
    let bad = "zzzzzzzzzzzzzzzzzzzzzzzz";
    assert_eq!(bad.len(), 24);
    assert_eq!(store.ping(bad, 99), Err(ApiError::InvalidIdentifier));
    let payload = object(vec![("k", JsonValue::Null)]);
    assert_eq!(store.push_config(bad, &payload), Err(ApiError::InvalidIdentifier));
    assert_eq!(store.push_config("", &payload), Err(ApiError::InvalidIdentifier));
    // The one record is untouched.
    let rec = store.get_record(id).unwrap();
    assert_eq!(rec.last_connected, 42);
    assert_eq!(rec.config_data.len(), 0);
}

#[test]
fn ping_on_absent_id_is_not_found() {
    let mut store = Store::new();
    assert_eq!(
        store.ping("0123456789abcdef01234567", 7),
        Err(ApiError::RecordNotFound)
    );
}

#[test]
fn push_config_appends_entries_in_order() {
    let mut store = Store::new();
    let id = store.register("AA:BB:CC:DD:EE:FF".to_string(), 5).unwrap();
    let hex = id.to_hex();
    let payload = object(vec![
        ("brightness", JsonValue::Text("80".to_string())),
        ("mode", JsonValue::Text("eco".to_string())),
    ]);
    assert_eq!(store.push_config(&hex, &payload), Ok(()));
    {
        let rec = store.get_record(id).unwrap();
        assert_eq!(rec.config_data.len(), 2);
        assert_eq!(rec.config_data[0].key, "brightness");
        assert_eq!(rec.config_data[0].value, "\"80\"");
        assert_eq!(rec.config_data[1].key, "mode");
        assert_eq!(rec.config_data[1].value, "\"eco\"");
    }
    // Pushing the same object again appends two more entries: no dedup.
    assert_eq!(store.push_config(&hex, &payload), Ok(()));
    {
        let rec = store.get_record(id).unwrap();
        assert_eq!(rec.config_data.len(), 4);
        assert_eq!(rec.config_data[2].key, "brightness");
        assert_eq!(rec.config_data[2].value, "\"80\"");
        assert_eq!(rec.config_data[3].key, "mode");
        assert_eq!(rec.config_data[3].value, "\"eco\"");
    }
}

#[test]
fn push_config_rejects_non_object_payloads() {
    let mut store = Store::new();
    let id = store.register("AA:BB:CC:DD:EE:FF".to_string(), 5).unwrap();
    let hex = id.to_hex();
    let array = JsonValue::Array(vec![
        JsonValue::Number("1".to_string()),
        JsonValue::Number("2".to_string()),
        JsonValue::Number("3".to_string()),
    ]);
    assert_eq!(store.push_config(&hex, &array), Err(ApiError::InvalidConfigPayload));
    assert_eq!(
        store.push_config(&hex, &JsonValue::Null),
        Err(ApiError::InvalidConfigPayload)
    );
    assert_eq!(
        store.push_config(&hex, &JsonValue::Number("3".to_string())),
        Err(ApiError::InvalidConfigPayload)
    );
    assert_eq!(store.get_record(id).unwrap().config_data.len(), 0);
}

#[test]
fn push_config_on_absent_id_is_a_silent_no_op() {
    let mut store = Store::new();
    let id = store.register("AA:BB:CC:DD:EE:FF".to_string(), 5).unwrap();
    let absent = "0123456789abcdef01234567";
    assert_ne!(id.to_hex(), absent);
    let payload = object(vec![("mode", JsonValue::Text("eco".to_string()))]);
    assert_eq!(store.push_config(absent, &payload), Ok(()));
    assert_eq!(store.get_record(id).unwrap().config_data.len(), 0);
}

#[test]
fn duplicate_mac_registrations_yield_distinct_ids() {
    let mut store = Store::new();
    let first = store.register("AA:BB:CC:DD:EE:FF".to_string(), 1).unwrap();
    let second = store.register("AA:BB:CC:DD:EE:FF".to_string(), 2).unwrap();
    assert_ne!(first, second);
    assert_ne!(first.to_hex(), second.to_hex());
    assert_eq!(store.get_record(first).unwrap().mac_address, "AA:BB:CC:DD:EE:FF");
    assert_eq!(store.get_record(second).unwrap().mac_address, "AA:BB:CC:DD:EE:FF");
    assert_eq!(store.get_record(first).unwrap().last_connected, 1);
    assert_eq!(store.get_record(second).unwrap().last_connected, 2);
}

#[test]
fn registration_requests_carry_their_mac() {
    let mut store = Store::new();
    let req = MAC { macAddress: "AA:BB:CC:DD:EE:FF".to_string() };
    let id = store.register_request(req, 9).unwrap();
    let rec = store.get_record(id).unwrap();
    assert_eq!(rec.mac_address, "AA:BB:CC:DD:EE:FF");
    assert_eq!(rec.last_connected, 9);
}

#[test]
fn identifier_round_trip() {
    let mut store = Store::new();
    let id = store.register("AA".to_string(), 0).unwrap();
    let hex = id.to_hex();
    assert_eq!(hex.len(), 24);
    assert_eq!(parse_device_id(&hex), Ok(id));
}

#[test]
fn identifier_parsing_accepts_exactly_canonical_hex() {
    assert!(parse_device_id("0123456789abcdef01234567").is_ok());
    // Upper-case digits denote the same identifier.
    assert_eq!(
        parse_device_id("0123456789ABCDEF01234567"),
        parse_device_id("0123456789abcdef01234567")
    );
    assert_eq!(parse_device_id(""), Err(ApiError::InvalidIdentifier));
    assert_eq!(parse_device_id("0123456789abcdef0123456"), Err(ApiError::InvalidIdentifier));
    assert_eq!(parse_device_id("0123456789abcdef012345678"), Err(ApiError::InvalidIdentifier));
    assert_eq!(parse_device_id("0123456789abcdef0123456g"), Err(ApiError::InvalidIdentifier));
    assert_eq!(parse_device_id("0123456789abcdef0123456-"), Err(ApiError::InvalidIdentifier));
}

#[test]
fn first_identifiers_are_sequential_hex() {
    let mut store = Store::new();
    let a = store.register("m1".to_string(), 0).unwrap();
    let b = store.register("m2".to_string(), 0).unwrap();
    assert_eq!(a.to_hex(), "000000000000000000000000");
    assert_eq!(b.to_hex(), "000000000000000000000001");
}

#[test]
fn error_descriptions_match_served_bodies() {
    assert_eq!(ApiError::InvalidIdentifier.describe(), "Invalid ID");
    assert_eq!(ApiError::RecordNotFound.describe(), "Moon not found");
    assert_eq!(ApiError::InvalidConfigPayload.describe(), "Invalid configData");
    assert_eq!(ApiError::StoreWriteFailed.describe(), "Error while inserting document");
}
