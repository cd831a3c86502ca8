use lib::omci::config::IdentityConfig;
use lib::omci::entity::ManagedEntity;
use lib::omci::mib::{dynamic_entity, entity_from_definition, Mib};
use lib::omci::protocol::{
    Encoding, Request, ACTION_CREATE, ACTION_DELETE, ACTION_GET, ACTION_GET_CURRENT_DATA, ACTION_SET,
    RESULT_ATTRIBUTE_FAILED, RESULT_INSTANCE_EXISTS, RESULT_SUCCESS, RESULT_UNKNOWN_ME,
};
use lib::omci::provisioning::{DataPathCandidate, DATA_PATH_VLAN_ANY};
use lib::omci::schema::{
    managed_entities, AttributeKind, CreateSource, ManagedEntityOrigin, CLASS_ENHANCED_SECURITY_CONTROL,
    CLASS_ETHERNET_FRAME_EXTENDED_PM, CLASS_ETHERNET_PM_HISTORY_DATA, CLASS_FEC_PM_HISTORY_DATA,
    CLASS_GEM_PORT_NETWORK_CTP, CLASS_GEM_PORT_PM_HISTORY_DATA, CLASS_MAC_BRIDGE_PORT_CONFIG_DATA,
    CLASS_MAC_BRIDGE_PORT_FILTER_PREASSIGN_DATA, CLASS_MAC_BRIDGE_PORT_PM_HISTORY_DATA,
    CLASS_MAC_BRIDGE_SERVICE_PROFILE, CLASS_MULTICAST_GEM_INTERWORKING_TP, CLASS_MULTICAST_OPERATIONS_PROFILE,
    CLASS_MULTICAST_SUBSCRIBER_CONFIG, CLASS_OMCI, CLASS_ONU2_G, CLASS_THRESHOLD_DATA_1, CLASS_THRESHOLD_DATA_2,
    CLASS_TRAFFIC_DESCRIPTOR, CLASS_VENDOR_351, CLASS_VLAN_TAGGING_FILTER, CLASS_TCONT, CLASS_GEM_INTERWORKING_TP,
};
use lib::omci::security::SessionCrypto;

/// Deterministic session crypto for the tests.
struct FixedCrypto;

impl SessionCrypto for FixedCrypto {
    fn random_block(&mut self) -> Option<[u8; 16]> {
        Some([0x11; 16])
    }

    fn onu_random_challenge(&mut self, olt_challenge: &[u8; 16], random: &[u8; 16]) -> [u8; 16] {
        let mut out = [0u8; 16];
        for i in 0..16 {
            out[i] = olt_challenge[i] ^ random[i];
        }
        out
    }

    fn authentication_result(
        &mut self,
        _olt_challenges: &Vec<[u8; 16]>,
        _onu_challenges: &Vec<[u8; 16]>,
        _serial: &[u8; 8],
        onu_result: bool,
    ) -> Option<[u8; 16]> {
        Some(if onu_result { [0x22; 16] } else { [0x33; 16] })
    }

    fn master_session_key_name(&mut self, _olt: &Vec<[u8; 16]>, _onu: &Vec<[u8; 16]>) -> Option<[u8; 16]> {
        Some([0x44; 16])
    }

    fn master_session_key(&mut self, _olt: &Vec<[u8; 16]>, _onu: &Vec<[u8; 16]>) -> Option<[u8; 16]> {
        Some([0x55; 16])
    }
}

fn request(encoding: Encoding, message_type: u8, action: u8, class_id: u16, entity_id: u16, attribute_mask: u16, payload: &[u8]) -> Request {
    Request {
        encoding,
        tci: 1,
        message_type,
        action,
        class_id,
        entity_id,
        attribute_mask,
        payload: payload.to_vec(),
        content: payload.to_vec(),
    }
}

#[test]
fn create_schema_preserves_wire_offsets_and_access() {
    let payload = (0u8..32).collect::<Vec<_>>();
    let bridge = dynamic_entity(CLASS_MAC_BRIDGE_SERVICE_PROFILE, &payload).unwrap();
    assert_eq!(bridge.attribute(4).unwrap().value().as_slice(), &payload[3..5]);
    assert!(bridge.attribute(4).unwrap().writable());

    let gem = dynamic_entity(CLASS_GEM_PORT_NETWORK_CTP, &payload).unwrap();
    assert_eq!(gem.attribute(9).unwrap().value().as_slice(), &payload[11..13]);
    assert!(!gem.attribute(8).unwrap().writable());

    let descriptor = dynamic_entity(CLASS_TRAFFIC_DESCRIPTOR, &payload).unwrap();
    assert_eq!(descriptor.attribute(8).unwrap().value().as_slice(), &payload[19..20]);
    assert!(!descriptor.attribute(8).unwrap().writable());
}

#[test]
fn create_schema_requires_its_complete_payload() {
    for definition in managed_entities().iter().filter(|definition| definition.origin == ManagedEntityOrigin::Olt) {
        let length = definition
            .attributes
            .iter()
            .filter_map(|attribute| match (attribute.create, attribute.kind) {
                (CreateSource::Required { offset }, AttributeKind::Scalar { length }) => Some(offset + length),
                _ => None,
            })
            .max()
            .expect("OLT-created ME has a required create field");
        assert!(dynamic_entity(definition.class_id, &vec![0; length]).is_some());
        assert!(dynamic_entity(definition.class_id, &vec![0; length - 1]).is_none());
    }
}

#[test]
fn pm_schema_keeps_threshold_state_and_runtime_counters_separate() {
    let mut mib = Mib::from_identity(&IdentityConfig::default());
    let payload = 0x1234u16.to_be_bytes();
    let create = request(Encoding::Baseline, 0x44, ACTION_CREATE, CLASS_ETHERNET_PM_HISTORY_DATA, 1, 0, &payload);

    assert_eq!(mib.dispatch(&create, &mut FixedCrypto).result(), Some(RESULT_SUCCESS));
    let entity = mib.entity(CLASS_ETHERNET_PM_HISTORY_DATA, 1).unwrap();
    assert_eq!(entity.attribute(2).unwrap().value().as_slice(), &payload);
    assert_eq!(entity.attribute(3).unwrap().value(), &vec![0; 4]);
    assert!(!entity.attribute(3).unwrap().writable());
    assert!(!entity.attribute(3).unwrap().upload());
}

#[test]
fn duplicate_create_is_idempotent_when_the_instance_matches() {
    let mut mib = Mib::from_identity(&IdentityConfig::default());
    let payload = 0x1234u16.to_be_bytes();
    let create = request(Encoding::Baseline, 0x44, ACTION_CREATE, CLASS_ETHERNET_PM_HISTORY_DATA, 1, 0, &payload);

    assert_eq!(mib.dispatch(&create, &mut FixedCrypto).result(), Some(RESULT_SUCCESS));
    assert_eq!(mib.dispatch(&create, &mut FixedCrypto).result(), Some(RESULT_SUCCESS));

    let changed_payload = 0x5678u16.to_be_bytes();
    let changed = Request { payload: changed_payload.to_vec(), content: changed_payload.to_vec(), ..create.clone() };
    assert_eq!(mib.dispatch(&changed, &mut FixedCrypto).result(), Some(RESULT_INSTANCE_EXISTS));
    assert_eq!(
        mib.entity(CLASS_ETHERNET_PM_HISTORY_DATA, 1).unwrap().attribute(2).unwrap().value().as_slice(),
        &payload
    );
}

#[test]
fn compatibility_profile_disables_enhanced_security() {
    let identity = IdentityConfig { omcc_version: 0x86, disable_enhanced_security: true, ..IdentityConfig::default() };
    let mut mib = Mib::from_identity(&identity);

    assert_eq!(mib.entity(CLASS_ONU2_G, 0).unwrap().attribute(2).unwrap().value(), &vec![0x86]);
    assert!(mib.entity(CLASS_ENHANCED_SECURITY_CONTROL, 0).is_none());
    assert!(!mib
        .entity(CLASS_OMCI, 0)
        .unwrap()
        .attribute(1)
        .unwrap()
        .contains_row(&CLASS_ENHANCED_SECURITY_CONTROL.to_be_bytes()));

    let content = [1u8];
    let set = request(Encoding::Baseline, 0x48, ACTION_SET, CLASS_ENHANCED_SECURITY_CONTROL, 0, 0x8000, &content);
    assert_eq!(mib.dispatch(&set, &mut FixedCrypto).result(), Some(RESULT_UNKNOWN_ME));
}

#[test]
fn huawei_pm_creates_are_accepted() {
    let mut mib = Mib::from_identity(&IdentityConfig::default());
    // Payloads captured from a Huawei XGS-PON OLT: PPTP 1 downstream control block and threshold data 4.
    let mut control_block = [0u8; 32];
    control_block[..12].copy_from_slice(&[0, 0x0b, 0, 0x0b, 0, 0x01, 0, 0, 0, 0, 0, 0x02]);
    let mut threshold = [0u8; 32];
    threshold[1] = 0x04;

    {
        let class_rows = mib.entity(CLASS_OMCI, 0).unwrap().attribute(1).unwrap();
        assert!(class_rows.contains_row(&CLASS_MAC_BRIDGE_PORT_PM_HISTORY_DATA.to_be_bytes()));
        assert!(class_rows.contains_row(&CLASS_ETHERNET_FRAME_EXTENDED_PM.to_be_bytes()));
        assert!(!class_rows.contains_row(&CLASS_VENDOR_351.to_be_bytes()));
    }

    for (class_id, payload) in [
        (CLASS_ETHERNET_FRAME_EXTENDED_PM, &control_block),
        (CLASS_MAC_BRIDGE_PORT_PM_HISTORY_DATA, &threshold),
        (CLASS_VENDOR_351, &threshold),
    ] {
        let create = request(Encoding::Baseline, 0x44, ACTION_CREATE, class_id, 2, 0, payload);
        assert_eq!(mib.dispatch(&create, &mut FixedCrypto).result(), Some(RESULT_SUCCESS));
        let get = Request { message_type: 0x49, action: ACTION_GET, attribute_mask: 0xc000, ..create.clone() };
        assert_eq!(mib.dispatch(&get, &mut FixedCrypto).result(), Some(RESULT_SUCCESS));
        let delete = Request { message_type: 0x46, action: ACTION_DELETE, ..create.clone() };
        assert_eq!(mib.dispatch(&delete, &mut FixedCrypto).result(), Some(RESULT_SUCCESS));
    }

    let entity = entity_from_definition(CLASS_ETHERNET_FRAME_EXTENDED_PM, Some(&control_block))
        .expect("extended PM schema is registered");
    assert_eq!(entity.attribute(2).unwrap().value().as_slice(), &control_block[..16]);
    assert!(!entity.attribute(16).unwrap().upload());
}

#[test]
fn enhanced_security_accepts_broadcast_key_rows() {
    let mut mib = Mib::from_identity(&IdentityConfig::default());
    let set = |mib: &mut Mib, row: &[u8]| {
        mib.dispatch(
            &request(Encoding::Baseline, 0x48, ACTION_SET, CLASS_ENHANCED_SECURITY_CONTROL, 0, 0x0020, row),
            &mut FixedCrypto,
        )
        .result()
    };
    let rows = |mib: &Mib| mib.entity(CLASS_ENHANCED_SECURITY_CONTROL, 0).unwrap().attribute(11).unwrap().row_count();

    // Key indexes 1 and 2, fragment 0, as distributed by a Huawei XGS-PON OLT.
    let mut key1 = vec![0x00, 0x40];
    key1.extend_from_slice(&[0x50; 16]);
    let mut key2 = vec![0x00, 0x80];
    key2.extend_from_slice(&[0xf5; 16]);
    assert_eq!(set(&mut mib, &key1), Some(RESULT_SUCCESS));
    assert_eq!(set(&mut mib, &key2), Some(RESULT_SUCCESS));
    assert_eq!(rows(&mib), 2);
    let snapshot = mib.provisioning_snapshot();
    assert!(snapshot.enhanced_security);
    assert_eq!(snapshot.broadcast_key_indexes, vec![1, 2]);

    let mut clear_row = vec![0x01, 0x40];
    clear_row.extend_from_slice(&[0; 16]);
    assert_eq!(set(&mut mib, &clear_row), Some(RESULT_SUCCESS));
    assert_eq!(rows(&mib), 1);

    let mut clear_table = vec![0x02, 0x00];
    clear_table.extend_from_slice(&[0; 16]);
    assert_eq!(set(&mut mib, &clear_table), Some(RESULT_SUCCESS));
    assert_eq!(rows(&mib), 0);

    let mut reserved = vec![0x03, 0x40];
    reserved.extend_from_slice(&[0; 16]);
    assert_eq!(set(&mut mib, &reserved), Some(RESULT_ATTRIBUTE_FAILED));
}

#[test]
fn omci_capability_table_tracks_the_registered_schema() {
    let mib = Mib::from_identity(&IdentityConfig::default());
    let entity = mib.entity(CLASS_OMCI, 0).unwrap();
    let class_rows = entity.attribute(1).unwrap();
    let message_rows = entity.attribute(2).unwrap();

    for class_id in [
        CLASS_ETHERNET_PM_HISTORY_DATA,
        CLASS_GEM_PORT_PM_HISTORY_DATA,
        CLASS_FEC_PM_HISTORY_DATA,
        CLASS_THRESHOLD_DATA_1,
        CLASS_THRESHOLD_DATA_2,
    ] {
        assert!(class_rows.contains_row(&class_id.to_be_bytes()));
    }
    assert!(message_rows.contains_row(&[ACTION_GET_CURRENT_DATA]));
}

#[test]
fn multicast_iwtp_uses_downstream_gem_and_bridge_vlan() {
    let mut mib = Mib::empty();

    // The multicast interworking point reference assigns multicast type to its downstream GEM.
    mib.insert(
        CLASS_GEM_PORT_NETWORK_CTP,
        0x120,
        ManagedEntity::empty()
            .read_write(1, 4000u16.to_be_bytes().to_vec())
            .read_write(2, 0xffffu16.to_be_bytes().to_vec())
            .read_write(3, vec![2]),
    );
    mib.insert(
        CLASS_MULTICAST_GEM_INTERWORKING_TP,
        0x220,
        ManagedEntity::empty().read_write(1, 0x120u16.to_be_bytes().to_vec()),
    );
    mib.insert(
        CLASS_MAC_BRIDGE_PORT_CONFIG_DATA,
        0x320,
        ManagedEntity::empty().read_write(3, vec![6]).read_write(4, 0x220u16.to_be_bytes().to_vec()),
    );
    let mut vlan_list = vec![0; 24];
    vlan_list[..2].copy_from_slice(&85u16.to_be_bytes());
    mib.insert(
        CLASS_VLAN_TAGGING_FILTER,
        0x320,
        ManagedEntity::empty().read_write(1, vlan_list).read_write(2, vec![0x03]).read_write(3, vec![1]),
    );

    assert_eq!(
        mib.provisioning_snapshot().data_paths,
        vec![DataPathCandidate { alloc_id: u16::MAX, gem_id: 4000, vlan_id: 85, pbit_mask: u8::MAX, multicast: true }]
    );
    let snapshot = mib.provisioning_snapshot();
    assert!(snapshot.vlan_ids.is_empty());
    assert_eq!(snapshot.multicast_vlan_ids, vec![85]);
}

#[test]
fn subscriber_profile_reports_igmp_upstream_vlan() {
    let mut mib = Mib::empty();
    let mut profile_payload = vec![0; 26];

    // Profile attribute 4 starts at offset 3 and attribute 5 follows it.
    profile_payload[3..5].copy_from_slice(&85u16.to_be_bytes());
    profile_payload[5] = 1; // add TCI
    mib.insert(
        CLASS_MULTICAST_OPERATIONS_PROFILE,
        0x400,
        dynamic_entity(CLASS_MULTICAST_OPERATIONS_PROFILE, &profile_payload).expect("valid multicast profile"),
    );

    let mut subscriber_payload = vec![0; 10];
    subscriber_payload[1..3].copy_from_slice(&0x400u16.to_be_bytes());
    mib.insert(
        CLASS_MULTICAST_SUBSCRIBER_CONFIG,
        0x100,
        dynamic_entity(CLASS_MULTICAST_SUBSCRIBER_CONFIG, &subscriber_payload).expect("valid subscriber config"),
    );

    let snapshot = mib.provisioning_snapshot();
    assert_eq!(snapshot.igmp_upstream_vlan_ids, vec![85]);
    assert_eq!(snapshot.igmp_upstream_tag_controls, vec![1]);
}

#[test]
fn subscriber_profile_reports_multicast_acl_vlan() {
    let mut mib = Mib::empty();
    let profile_payload = vec![0; 26];
    let mut profile =
        dynamic_entity(CLASS_MULTICAST_OPERATIONS_PROFILE, &profile_payload).expect("valid multicast profile");
    let mut acl = vec![0; 24];

    // Profile attribute 7 carries GEM 0xfffe, VLAN 80, and the multicast address range.
    acl[0..2].copy_from_slice(&0x5388u16.to_be_bytes());
    acl[2..4].copy_from_slice(&0xfffeu16.to_be_bytes());
    acl[4..6].copy_from_slice(&80u16.to_be_bytes());
    acl[10..14].copy_from_slice(&[224, 0, 1, 0]);
    acl[14..18].copy_from_slice(&[239, 255, 255, 255]);
    assert!(profile.insert_table_row(7, acl[..8].to_vec(), acl.clone()), "static ACL table");
    mib.insert(CLASS_MULTICAST_OPERATIONS_PROFILE, 5, profile);

    let mut subscriber_payload = vec![0; 10];
    subscriber_payload[1..3].copy_from_slice(&5u16.to_be_bytes());
    mib.insert(
        CLASS_MULTICAST_SUBSCRIBER_CONFIG,
        5,
        dynamic_entity(CLASS_MULTICAST_SUBSCRIBER_CONFIG, &subscriber_payload).expect("valid subscriber config"),
    );

    assert_eq!(mib.provisioning_snapshot().multicast_vlan_ids, vec![80]);
}

#[test]
fn bridge_port_create_provides_filter_preassign_instance() {
    let mut mib = Mib::from_identity(&IdentityConfig::default());
    let bridge_port_payload = [0u8; 14];
    let create = request(Encoding::Extended, 0x44, ACTION_CREATE, CLASS_MAC_BRIDGE_PORT_CONFIG_DATA, 1, 0, &bridge_port_payload);

    assert_eq!(mib.dispatch(&create, &mut FixedCrypto).result(), Some(RESULT_SUCCESS));
    assert!(mib.entity(CLASS_MAC_BRIDGE_PORT_FILTER_PREASSIGN_DATA, 1).is_some());

    let value = [1u8];
    let mut set = request(Encoding::Extended, 0x48, ACTION_SET, CLASS_MAC_BRIDGE_PORT_FILTER_PREASSIGN_DATA, 1, 0x8000, &value);
    set.tci = 2;

    assert_eq!(mib.dispatch(&set, &mut FixedCrypto).result(), Some(RESULT_SUCCESS));
    assert_eq!(
        mib.entity(CLASS_MAC_BRIDGE_PORT_FILTER_PREASSIGN_DATA, 1).unwrap().attribute(1).unwrap().value().as_slice(),
        &value
    );
}

#[test]
fn enhanced_security_handshake_answers_and_checks_the_olt() {
    let mut mib = Mib::from_identity(&IdentityConfig::default());
    let set = |mib: &mut Mib, mask: u16, content: &[u8]| {
        mib.dispatch(
            &request(Encoding::Baseline, 0x48, ACTION_SET, CLASS_ENHANCED_SECURITY_CONTROL, 0, mask, content),
            &mut FixedCrypto,
        )
        .result()
    };
    let mut olt_row = vec![1u8];
    olt_row.extend_from_slice(&[0x0f; 16]);
    assert_eq!(set(&mut mib, 0x4000, &olt_row), Some(RESULT_SUCCESS));
    mib.take_attribute_value_changes();

    // Step 1: one ONU challenge per OLT challenge and the ONU result.
    assert_eq!(set(&mut mib, 0x2000, &[1]), Some(RESULT_SUCCESS));
    {
        let entity = mib.entity(CLASS_ENHANCED_SECURITY_CONTROL, 0).unwrap();
        let onu = entity.attribute(5).unwrap().rows();
        assert_eq!(onu.len(), 1);
        assert_eq!(onu[0].value, vec![0x0f ^ 0x11; 16]);
        assert_eq!(entity.attribute(6).unwrap().rows()[0].value, vec![0x22; 16]);
    }
    let changes = mib.take_attribute_value_changes();
    assert_eq!(changes.len(), 2);
    assert_eq!(changes[0].value, vec![0, 0, 0, 16]);

    // Step 2: the OLT result matches, so the key name is stored and the key awaits installation.
    let mut olt_result = vec![1u8];
    olt_result.extend_from_slice(&[0x33; 16]);
    assert_eq!(set(&mut mib, 0x0200, &olt_result), Some(RESULT_SUCCESS));
    assert_eq!(set(&mut mib, 0x0100, &[1]), Some(RESULT_SUCCESS));
    assert_eq!(
        mib.entity(CLASS_ENHANCED_SECURITY_CONTROL, 0).unwrap().attribute(10).unwrap().value(),
        &vec![0x44; 16]
    );
    assert_eq!(mib.take_pending_master_session_key(), Some([0x55; 16]));

    // A wrong OLT result fails authentication (state 4) without a key.
    let mut wrong = vec![1u8];
    wrong.extend_from_slice(&[0x34; 16]);
    assert_eq!(set(&mut mib, 0x0200, &wrong), Some(RESULT_SUCCESS));
    assert_eq!(set(&mut mib, 0x0100, &[1]), Some(RESULT_SUCCESS));
    assert_eq!(mib.entity(CLASS_ENHANCED_SECURITY_CONTROL, 0).unwrap().attribute(9).unwrap().value(), &vec![4]);
    assert_eq!(mib.take_pending_master_session_key(), None);
}

#[test]
fn unicast_path_takes_tcont_alloc_id_and_gem_port() {
    let mut mib = Mib::empty();
    mib.insert(CLASS_TCONT, 0x8000, ManagedEntity::empty().read_write(1, 0x0400u16.to_be_bytes().to_vec()));
    mib.insert(
        CLASS_GEM_PORT_NETWORK_CTP,
        0x100,
        ManagedEntity::empty()
            .read_write(1, 1025u16.to_be_bytes().to_vec())
            .read_write(2, 0x8000u16.to_be_bytes().to_vec())
            .read_write(3, vec![3]),
    );
    mib.insert(CLASS_GEM_INTERWORKING_TP, 0x200, ManagedEntity::empty().read_write(1, 0x100u16.to_be_bytes().to_vec()));
    mib.insert(
        CLASS_MAC_BRIDGE_PORT_CONFIG_DATA,
        0x300,
        ManagedEntity::empty().read_write(3, vec![5]).read_write(4, 0x200u16.to_be_bytes().to_vec()),
    );
    let snapshot = mib.provisioning_snapshot();
    assert_eq!(
        snapshot.data_paths,
        vec![DataPathCandidate { alloc_id: 0x0400, gem_id: 1025, vlan_id: DATA_PATH_VLAN_ANY, pbit_mask: 0, multicast: false }]
    );
    assert!(snapshot.vlan_ids.is_empty());

    // An unassigned T-CONT (Alloc-ID 0xffff) gives no path.
    mib.insert(CLASS_TCONT, 0x8000, ManagedEntity::empty().read_write(1, vec![0xff, 0xff]));
    assert!(mib.provisioning_snapshot().data_paths.is_empty());
}
