use lib::omci::backend::BackendStatus;
use lib::omci::control::{
    data_path_class_name, event_json, parse_control_request, transaction_json, unsupported_reply, ControlRequest,
    Event, StatusHub, Transaction, EVENT_CAPACITY,
};
use lib::omci::protocol::{Encoding, Request, ACTION_GET, ACTION_MIB_UPLOAD_NEXT};
use lib::omci::provisioning::{
    DataPathAttribute, DataPathCandidate, DataPathEntity, DataPathGraph, DataPathTableRow, ProvisioningSnapshot,
};

fn get_request() -> Request {
    Request {
        encoding: Encoding::Baseline,
        tci: 0x00ab,
        message_type: 0x49,
        action: ACTION_GET,
        class_id: 256,
        entity_id: 0,
        attribute_mask: 0x8000,
        payload: vec![],
        content: vec![],
    }
}

#[test]
fn control_requests_are_read_by_their_words() {
    assert_eq!(parse_control_request("STATUS 1\n"), ControlRequest::Status);
    assert_eq!(parse_control_request("  DATAPATH\t1"), ControlRequest::DataPath);
    assert_eq!(parse_control_request("EVENTS 1 42\n"), ControlRequest::Events { after: 42 });
    assert_eq!(parse_control_request("EVENTS 1 x"), ControlRequest::InvalidCursor);
    assert_eq!(parse_control_request("EVENTS 1 18446744073709551616"), ControlRequest::InvalidCursor);
    assert_eq!(parse_control_request("STATUS 2"), ControlRequest::Unsupported);
    assert_eq!(parse_control_request("EVENTS 1"), ControlRequest::Unsupported);
    assert_eq!(parse_control_request(""), ControlRequest::Unsupported);
    assert_eq!(unsupported_reply(), "{\"error\":\"unsupported control request\",\"protocol_version\":1}");
}

#[test]
fn new_hub_logs_its_start() {
    let hub = StatusHub::new("omci0", true, 1000);
    let lines = hub.events_after(0);
    assert_eq!(
        lines,
        vec!["{\"sequence\":1,\"timestamp_ms\":1000,\"kind\":\"lifecycle\",\"message\":\"OMCI daemon started\"}".to_string()]
    );
    assert!(hub.events_after(1).is_empty());
}

#[test]
fn rx_and_tx_events_describe_the_request() {
    let mut hub = StatusHub::new("omci0", false, 1);
    let request = get_request();
    hub.record_rx(&request, 2);
    hub.record_tx(&request, Some(0), false, 3);
    let next = Request { action: ACTION_MIB_UPLOAD_NEXT, attribute_mask: 3, ..request.clone() };
    hub.record_tx(&next, None, true, 4);
    let lines = hub.events_after(1);
    assert_eq!(lines.len(), 3);
    assert_eq!(
        lines[0],
        "{\"sequence\":2,\"timestamp_ms\":2,\"kind\":\"rx\",\"message\":\"tci=0x00ab action=0x09 class=256 entity=0 mask=0x8000\"}"
    );
    assert_eq!(
        lines[1],
        "{\"sequence\":3,\"timestamp_ms\":3,\"kind\":\"tx\",\"message\":\"tci=0x00ab action=0x09 class=256 entity=0 result=0x00 retransmission=false\"}"
    );
    assert_eq!(
        lines[2],
        "{\"sequence\":4,\"timestamp_ms\":4,\"kind\":\"tx\",\"message\":\"tci=0x00ab action=0x0e class=256 entity=0 result=none retransmission=true\"}"
    );
}

#[test]
fn event_log_keeps_the_newest_events() {
    let mut hub = StatusHub::new("omci0", false, 0);
    for i in 0..(EVENT_CAPACITY as u128 + 10) {
        hub.record_transport_error("down", i);
    }
    let lines = hub.events_after(0);
    assert_eq!(lines.len(), EVENT_CAPACITY);
    assert!(lines[0].starts_with("{\"sequence\":12,"));
    assert!(lines[EVENT_CAPACITY - 1].starts_with("{\"sequence\":267,"));
    assert!(hub.events_after(267).is_empty());
}

#[test]
fn status_json_reports_every_field() {
    let mut hub = StatusHub::new("omci0", true, 5);
    hub.record_authentication_status(1, "accepted", 6);
    hub.record_parse_error("short frame", 7);
    let expected = "{\"protocol_version\":1,\"interface\":\"omci0\",\"channel_available\":true,\"loid_configured\":true,\
        \"authentication_status\":1,\"authentication_meaning\":\"accepted\",\
        \"olt_vendor_id\":\"\",\"olt_equipment_id\":\"\",\"olt_version\":\"\",\
        \"rx_messages\":0,\"tx_messages\":0,\"parse_errors\":1,\
        \"tcont_count\":0,\"gem_port_count\":0,\"gem_iwtp_count\":0,\"vlan_rule_count\":0,\
        \"vlan_ids\":[],\"multicast_vlan_ids\":[],\"igmp_upstream_vlan_ids\":[],\
        \"igmp_upstream_tag_controls\":[],\"enhanced_security\":false,\"broadcast_key_indexes\":[],\
        \"data_path_candidate_count\":0,\"data_path_all_vlans\":false,\
        \"backend_state\":\"waiting-for-gem\",\"active_alloc_id\":null,\"active_gem_id\":null,\
        \"backend_error\":null,\"event_sequence\":3,\"last_transaction\":null}";
    assert_eq!(hub.status_json(Some(true)), expected);
}

#[test]
fn status_json_hides_the_backend_without_carrier() {
    let mut hub = StatusHub::new("omci0", false, 0);
    let mut snapshot = ProvisioningSnapshot::default();
    snapshot.vlan_ids = vec![100, 200];
    snapshot.broadcast_key_indexes = vec![1];
    let backend = BackendStatus {
        state: "applied",
        active_alloc_id: Some(1024),
        active_gem_id: Some(1025),
        all_vlans: true,
        error: Some("x\"y".to_string()),
    };
    hub.record_provisioning(snapshot, DataPathGraph::default(), backend);
    hub.record_rx(&get_request(), 1);
    let up = hub.status_json(None);
    assert!(up.contains("\"channel_available\":null"));
    assert!(up.contains("\"vlan_ids\":[100,200]"));
    assert!(up.contains("\"broadcast_key_indexes\":[1]"));
    assert!(up.contains("\"data_path_all_vlans\":true,\"backend_state\":\"applied\",\"active_alloc_id\":1024,\"active_gem_id\":1025,\"backend_error\":\"x\\\"y\""));
    assert!(up.ends_with(
        "\"last_transaction\":{\"tci\":171,\"action\":9,\"class_id\":256,\"entity_id\":0,\"attribute_mask\":32768,\"result\":null}}"
    ));
    let down = hub.status_json(Some(false));
    assert!(down.contains("\"data_path_all_vlans\":false,\"backend_state\":\"inactive\",\"active_alloc_id\":null,\"active_gem_id\":null"));
}

#[test]
fn data_path_json_lists_candidates_and_entities() {
    let mut hub = StatusHub::new("omci0", false, 0);
    let graph = DataPathGraph {
        candidates: vec![
            DataPathCandidate { alloc_id: 1, gem_id: 2, vlan_id: 3, pbit_mask: 255, multicast: false },
            DataPathCandidate { alloc_id: 4, gem_id: 5, vlan_id: 6, pbit_mask: 1, multicast: true },
        ],
        entities: vec![DataPathEntity {
            class_id: 84,
            entity_id: 7,
            attributes: vec![DataPathAttribute {
                index: 1,
                value: vec![0x0a, 0xff],
                table_rows: vec![DataPathTableRow { key: vec![1], value: vec![1, 2] }],
            }],
        }],
    };
    hub.record_provisioning(ProvisioningSnapshot::default(), graph, BackendStatus::default());
    let expected = "{\"protocol_version\":1,\"backend_state\":\"waiting-for-gem\",\"backend_error\":null,\
        \"data_path_all_vlans\":false,\"candidates\":[\
        {\"alloc_id\":1,\"gem_id\":2,\"vlan_id\":3,\"pbit_mask\":255,\"multicast\":false},\
        {\"alloc_id\":4,\"gem_id\":5,\"vlan_id\":6,\"pbit_mask\":1,\"multicast\":true}],\
        \"entities\":[{\"class_id\":84,\"class_name\":\"VLAN Tagging Filter Data\",\"entity_id\":7,\
        \"attributes\":[{\"index\":1,\"value\":\"0aff\",\"table_rows\":[{\"key\":\"01\",\"value\":\"0102\"}]}]}]}";
    assert_eq!(hub.data_path_json(), expected);
    assert_eq!(data_path_class_name(999), "Unknown");
}

#[test]
fn event_and_transaction_json_escape_their_text() {
    let event = Event { sequence: 9, timestamp_ms: 12, kind: "parse-error", message: "bad\nframe".to_string() };
    assert_eq!(
        event_json(&event),
        "{\"sequence\":9,\"timestamp_ms\":12,\"kind\":\"parse-error\",\"message\":\"bad\\nframe\"}"
    );
    let transaction = Transaction { tci: 1, action: 8, class_id: 2, entity_id: 3, attribute_mask: 4, result: Some(0) };
    assert_eq!(
        transaction_json(&transaction),
        "{\"tci\":1,\"action\":8,\"class_id\":2,\"entity_id\":3,\"attribute_mask\":4,\"result\":0}"
    );
}
