use space_engineers::rpc::{RawRpcPacket, RpcError};
use space_engineers::nullable::Nullable;
use space_engineers::version::{
    RawInstanceEventEntry, RawInstanceEventGroup, RawSchema, RawStaticEventEntry, RawTypeEntry,
    SchemaError, Version,
};
use space_engineers::wire::Varint;

fn type_entry(index: u16, hash: i32, name: &str, is_replicated: bool) -> RawTypeEntry {
    RawTypeEntry { index, hash, name: name.to_string(), is_replicated }
}

/// A small schema: two types, one static event, one instance event.
fn test_schema() -> RawSchema {
    RawSchema {
        game_version: "1205026".to_string(),
        generated_at: "2024-01-01T00:00:00Z".to_string(),
        types: vec![
            type_entry(0, 12345, "TestType1", true),
            type_entry(1, 67890, "TestType2", false),
        ],
        static_events: vec![RawStaticEventEntry {
            id: 0,
            hash: 11111,
            name: "TestEvent1".to_string(),
            declaring_type_hash: 12345,
            is_reliable: true,
        }],
        instance_events: vec![RawInstanceEventGroup {
            type_hash: 12345,
            type_label: "TestType1".to_string(),
            events: vec![RawInstanceEventEntry {
                id: 0,
                hash: 22222,
                name: "InstanceEvent1".to_string(),
                is_reliable: false,
            }],
        }],
    }
}

#[test]
fn test_load_schema() {
    let schema = Version::from_raw(test_schema());
    assert_eq!(schema.game_version, "1205026");
}

#[test]
fn test_type_lookup() {
    let schema = Version::from_raw(test_schema());

    // Index -> Hash
    assert_eq!(schema.decode_type_index(0).unwrap(), 12345);
    assert_eq!(schema.decode_type_index(1).unwrap(), 67890);
    assert!(schema.decode_type_index(999).is_err());

    // Hash -> Index
    assert_eq!(schema.encode_type_hash(12345).unwrap(), 0);
    assert_eq!(schema.encode_type_hash(67890).unwrap(), 1);
    assert!(schema.encode_type_hash(99999).is_err());
}

#[test]
fn test_static_event_lookup() {
    let schema = Version::from_raw(test_schema());

    assert_eq!(schema.decode_static_event_id(0).unwrap(), 11111);
    assert!(schema.decode_static_event_id(999).is_err());
}

#[test]
fn test_instance_event_lookup() {
    let schema = Version::from_raw(test_schema());

    assert_eq!(schema.decode_instance_event_id(12345, 0).unwrap(), 22222);
    assert!(schema.decode_instance_event_id(12345, 999).is_err());
    assert!(schema.decode_instance_event_id(99999, 0).is_err());
}

#[test]
fn gaps_in_the_type_table() {
    let mut raw = test_schema();
    raw.types = vec![type_entry(3, 7, "Late", true)];
    let schema = Version::from_raw(raw);
    assert_eq!(schema.type_count(), 1);
    assert_eq!(schema.decode_type_index(0), Err(SchemaError::UnknownTypeIndex(0)));
    assert_eq!(schema.try_decode_type_index(3), Some(7));
    assert_eq!(schema.try_encode_type_hash(7), Some(3));
}

#[test]
fn later_entries_win() {
    let mut raw = test_schema();
    raw.types = vec![type_entry(0, 5, "A", true), type_entry(0, 6, "B", true), type_entry(1, 5, "C", true)];
    let schema = Version::from_raw(raw);
    assert_eq!(schema.try_decode_type_index(0), Some(6));
    assert_eq!(schema.try_encode_type_hash(5), Some(1));
    assert_eq!(schema.try_encode_type_hash(6), Some(0));
}

#[test]
fn lookup_errors() {
    let schema = Version::from_raw(test_schema());
    assert_eq!(schema.encode_type_hash(1), Err(SchemaError::UnknownTypeHash(1)));
    assert_eq!(
        schema.decode_static_event_id(4),
        Err(SchemaError::UnknownEventId { type_hash: 0, event_id: 4 })
    );
    assert_eq!(
        schema.decode_instance_event_id(99999, 0),
        Err(SchemaError::UnknownEventId { type_hash: 99999, event_id: 0 })
    );
    assert_eq!(schema.static_event_count(), 1);
    assert_eq!(schema.encode_static_event_hash(11111), Some(0));
    assert_eq!(schema.encode_instance_event_hash(12345, 22222), Some(0));
    assert_eq!(schema.encode_instance_event_hash(12345, 1), None);
    assert!(schema.instance_events(12345).is_some());
    assert!(schema.instance_events(1).is_none());
    let events = schema.instance_events(12345).unwrap();
    assert_eq!(events.decode_event_id(0), Some(22222));
    assert_eq!(events.encode_event_hash(22222), Some(0));
}

#[test]
fn instance_event_gap_is_unknown() {
    let mut raw = test_schema();
    raw.instance_events[0].events[0].id = 2;
    let schema = Version::from_raw(raw);
    assert_eq!(schema.try_decode_instance_event_id(12345, 0), None);
    assert_eq!(schema.try_decode_instance_event_id(12345, 1), None);
    assert_eq!(
        schema.decode_instance_event_id(12345, 1),
        Err(SchemaError::UnknownEventId { type_hash: 12345, event_id: 1 })
    );
    assert_eq!(schema.instance_events(12345).unwrap().decode_event_id(0), None);
    assert_eq!(schema.try_decode_instance_event_id(12345, 2), Some(22222));
}

fn rpc(network_id: u32, event_id: u16) -> RawRpcPacket {
    RawRpcPacket {
        network_id: Varint(network_id),
        blocked_by_network_id: Varint(0),
        event_id,
        position: Nullable::none(),
        payload: vec![],
    }
}

#[test]
fn rpc_resolution() {
    let schema = Version::from_raw(test_schema());
    assert_eq!(rpc(0, 0).resolve_static_event_hash(&schema), Ok(Some(11111)));
    assert_eq!(rpc(0, 9).resolve_static_event_hash(&schema), Ok(None));
    assert_eq!(rpc(5, 0).resolve_static_event_hash(&schema), Err(RpcError::NotStaticEvent));
    assert_eq!(rpc(0, 9).static_event_hash(&schema), Err(RpcError::UnknownEventId(9)));
    assert_eq!(rpc(7, 0).resolve_instance_event_hash(&schema, 12345), Ok(22222));
    assert_eq!(
        rpc(7, 3).resolve_instance_event_hash(&schema, 12345),
        Err(RpcError::UnknownInstanceEvent { type_hash: 12345, event_id: 3 })
    );
    let e: RpcError = SchemaError::UnknownTypeHash(4).into();
    assert_eq!(e, RpcError::Schema(SchemaError::UnknownTypeHash(4)));
}

#[test]
fn static_and_instance_events() {
    assert!(rpc(0, 1).is_static_event());
    assert!(!rpc(0, 1).is_instance_event());
    assert!(rpc(3, 1).is_instance_event());
}

#[test]
fn counts_are_of_listed_entries() {
    let mut raw = test_schema();
    raw.types = vec![type_entry(0, 1, "A", true), type_entry(5, 2, "B", true)];
    raw.static_events = vec![
        RawStaticEventEntry {
            id: 0,
            hash: 7,
            name: "E0".to_string(),
            declaring_type_hash: 1,
            is_reliable: true,
        },
        RawStaticEventEntry {
            id: 3,
            hash: 8,
            name: "E3".to_string(),
            declaring_type_hash: 1,
            is_reliable: false,
        },
    ];
    let schema = Version::from_raw(raw);
    assert_eq!(schema.type_count(), 2);
    assert_eq!(schema.static_event_count(), 2);
    assert_eq!(schema.try_decode_type_index(3), None);
    assert_eq!(schema.try_decode_static_event_id(1), None);
}

#[test]
fn instance_ids_between_events_are_unknown() {
    let mut raw = test_schema();
    raw.instance_events[0].events = vec![
        RawInstanceEventEntry { id: 0, hash: 22222, name: "A".to_string(), is_reliable: false },
        RawInstanceEventEntry { id: 2, hash: 33333, name: "B".to_string(), is_reliable: true },
    ];
    let schema = Version::from_raw(raw);
    assert_eq!(schema.try_decode_instance_event_id(12345, 1), None);
    assert_eq!(schema.try_decode_instance_event_id(12345, 2), Some(33333));
}

#[test]
fn game_version_of_the_schema() {
    let schema = Version::from_raw(test_schema());
    assert_eq!(schema.game_version(), "1205026");
}
