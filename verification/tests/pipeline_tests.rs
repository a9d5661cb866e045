use telemetry_log::model::{Event, EventPayload, SwitchState, UtcInstant, DTO};
use telemetry_log::pipeline::{
    conn_step, encode_event, export_bytes, import_bytes, ingest, ConnAction, ConnEvent, ConnState,
    IngestOutcome, RECONNECT_DELAY_SECS,
};
use telemetry_log::server::Server;
use telemetry_log::store::Store;

fn dto(source: &str, name: &str, value: &str, unit: &str) -> DTO {
    DTO {
        source: source.to_string(),
        name: name.to_string(),
        display_name: "Lamp".to_string(),
        value: value.to_string(),
        unit: unit.to_string(),
        device_id: 5,
        hub_id: 6,
        installed_app_id: 7,
        description_text: String::new(),
    }
}

#[test]
fn encoding_is_byte_stable() {
    let ev = Event {
        date: UtcInstant { secs: 1, nanos: 2 },
        device_name: "d".to_string(),
        device_id: 3,
        hub_id: 4,
        payload: EventPayload::DeviceSwitch {
            state: SwitchState::On,
        },
    };
    let expected: Vec<u8> = vec![
        0, 0, 0, 0, 0, 0, 0, 1, // capture seconds
        0, 0, 0, 2, // capture nanoseconds
        0, 0, 0, 0, 0, 0, 0, 1, // name length
        100, // "d"
        0, 0, 0, 3, // device id
        0, 0, 0, 4, // hub id
        9, 0, // switch payload, state on
    ];
    assert_eq!(encode_event(&ev), expected);
}

#[test]
fn encoding_distinguishes_values() {
    let mut ev = Event {
        date: UtcInstant { secs: 0, nanos: 0 },
        device_name: String::new(),
        device_id: 0,
        hub_id: 0,
        payload: EventPayload::DeviceSwitch {
            state: SwitchState::On,
        },
    };
    let on = encode_event(&ev);
    ev.payload = EventPayload::DeviceSwitch {
        state: SwitchState::Off,
    };
    let off = encode_event(&ev);
    assert_ne!(on, off);
}

#[test]
fn ingest_stores_a_decodable_message() {
    let mut store = Store::open_temp().unwrap();
    let outcome = ingest(&mut store, dto("DEVICE", "switch", "on", ""));
    assert_eq!(outcome, IngestOutcome::Stored(1));
    let (recs, lossy) = store.iter();
    assert!(!lossy);
    assert_eq!(recs.len(), 1);
    assert_eq!(recs[0].0, 1);
}

#[test]
fn ingest_drops_a_rejected_message_without_a_record() {
    let mut store = Store::open_temp().unwrap();
    let outcome = ingest(&mut store, dto("DEVICE", "unknownAttribute", "on", ""));
    assert!(matches!(outcome, IngestOutcome::Rejected(_)));
    assert!(store.iter().0.is_empty());
    // the next sequence id is unaffected by the rejection
    assert_eq!(store.add_event(b"x".to_vec()).unwrap(), 1);
}

#[test]
fn ingest_rejects_bad_field_data_without_a_record() {
    let mut store = Store::open_temp().unwrap();
    let outcome = ingest(&mut store, dto("DEVICE", "switch", "maybe", ""));
    assert!(matches!(outcome, IngestOutcome::Rejected(_)));
    assert!(store.iter().0.is_empty());
}

#[test]
fn export_import_round_trip_reassigns_ids_and_keeps_payloads() {
    let mut source = Store::open_temp().unwrap();
    source.add_event(b"a".to_vec()).unwrap();
    source.add_event(b"b".to_vec()).unwrap();
    let (text, lossy) = export_bytes(&source);
    assert!(!lossy);
    assert_eq!(text, b"1:a\n2:b\n".to_vec());

    let mut dest = Store::open_temp().unwrap();
    let n = import_bytes(&mut dest, text.as_slice()).unwrap();
    assert_eq!(n, 2);
    let (recs, lossy) = dest.iter();
    assert!(!lossy);
    assert_eq!(
        recs,
        vec![(1u64, b"a".to_vec()), (2u64, b"b".to_vec())]
    );
}

#[test]
fn import_into_a_nonempty_store_appends_after_existing_ids() {
    let mut dest = Store::open_temp().unwrap();
    dest.add_event(b"old".to_vec()).unwrap();
    let n = import_bytes(&mut dest, b"5:x\n9:y\n").unwrap();
    assert_eq!(n, 2);
    let (recs, lossy) = dest.iter();
    assert!(!lossy);
    assert_eq!(
        recs,
        vec![
            (1u64, b"old".to_vec()),
            (2u64, b"x".to_vec()),
            (3u64, b"y".to_vec())
        ]
    );
}

#[test]
fn reconnect_machine_follows_its_table() {
    assert_eq!(
        conn_step(ConnState::Disconnected, ConnEvent::Wake),
        (ConnState::Connecting, ConnAction::Connect)
    );
    assert_eq!(
        conn_step(ConnState::Connecting, ConnEvent::ConnectSucceeded),
        (ConnState::Connected, ConnAction::Receive)
    );
    assert_eq!(
        conn_step(ConnState::Connecting, ConnEvent::ConnectFailed),
        (ConnState::Disconnected, ConnAction::Delay)
    );
    assert_eq!(
        conn_step(ConnState::Connected, ConnEvent::StreamEnded),
        (ConnState::Disconnected, ConnAction::Delay)
    );
    assert_eq!(
        conn_step(ConnState::Connected, ConnEvent::Wake),
        (ConnState::Connected, ConnAction::Receive)
    );
    assert_eq!(
        conn_step(ConnState::Connected, ConnEvent::Shutdown),
        (ConnState::Disconnected, ConnAction::Stop)
    );
    assert_eq!(RECONNECT_DELAY_SECS, 2);
}

#[test]
fn server_holds_its_port() {
    let server = Server::new(8080);
    assert_eq!(server.port(), 8080);
}
