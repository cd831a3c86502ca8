use lib::omci::config::IdentityConfig;
use lib::omci::mib::Mib;
use lib::omci::protocol::{
    Encoding, Request, ResponseBody, ACTION_CREATE, ACTION_DELETE, ACTION_GET, ACTION_MIB_RESET, ACTION_MIB_UPLOAD,
    ACTION_GET_NEXT, ACTION_MIB_UPLOAD_NEXT, ACTION_SET, RESULT_ATTRIBUTE_FAILED, RESULT_COMMAND_NOT_SUPPORTED, RESULT_PARAMETER_ERROR, RESULT_SUCCESS, RESULT_UNKNOWN_INSTANCE,
};
use lib::omci::schema::{
    CLASS_ENHANCED_SECURITY_CONTROL, CLASS_SOFTWARE_IMAGE, CLASS_TCONT, CLASS_VENDOR_351, CLASS_ETHERNET_PM_HISTORY_DATA, CLASS_MAC_BRIDGE_PORT_CONFIG_DATA, CLASS_MAC_BRIDGE_PORT_FILTER_PREASSIGN_DATA,
    CLASS_OMCI, CLASS_ONU_DATA, CLASS_ONU_G,
};
use lib::omci::security::SessionCrypto;

struct NoCrypto;

impl SessionCrypto for NoCrypto {
    fn random_block(&mut self) -> Option<[u8; 16]> {
        None
    }

    fn onu_random_challenge(&mut self, olt_challenge: &[u8; 16], _random: &[u8; 16]) -> [u8; 16] {
        *olt_challenge
    }

    fn authentication_result(
        &mut self,
        _olt: &Vec<[u8; 16]>,
        _onu: &Vec<[u8; 16]>,
        _serial: &[u8; 8],
        _onu_result: bool,
    ) -> Option<[u8; 16]> {
        None
    }

    fn master_session_key_name(&mut self, _olt: &Vec<[u8; 16]>, _onu: &Vec<[u8; 16]>) -> Option<[u8; 16]> {
        None
    }

    fn master_session_key(&mut self, _olt: &Vec<[u8; 16]>, _onu: &Vec<[u8; 16]>) -> Option<[u8; 16]> {
        None
    }
}

fn omci_request(action: u8, class_id: u16, entity_id: u16, attribute_mask: u16, content: &[u8]) -> Request {
    Request {
        encoding: Encoding::Baseline,
        tci: 7,
        message_type: 0x40 | action,
        action,
        class_id,
        entity_id,
        attribute_mask,
        payload: content.to_vec(),
        content: content.to_vec(),
    }
}

fn mib_data_sync(mib: &Mib) -> u8 {
    mib.entity(CLASS_ONU_DATA, 0).unwrap().attribute(1).unwrap().value()[0]
}

#[test]
fn mib_data_sync_cycles_through_one_to_255() {
    let mut mib = Mib::from_identity(&IdentityConfig::default());
    assert_eq!(mib_data_sync(&mib), 0);
    for entity_id in 1u16..=255 {
        let create = omci_request(ACTION_CREATE, CLASS_ETHERNET_PM_HISTORY_DATA, entity_id, 0, &[0, 1]);
        assert_eq!(mib.dispatch(&create, &mut NoCrypto).result(), Some(RESULT_SUCCESS));
        assert_eq!(mib_data_sync(&mib) as u16, entity_id);
    }
    let create = omci_request(ACTION_CREATE, CLASS_ETHERNET_PM_HISTORY_DATA, 256, 0, &[0, 1]);
    assert_eq!(mib.dispatch(&create, &mut NoCrypto).result(), Some(RESULT_SUCCESS));
    assert_eq!(mib_data_sync(&mib), 1);
}

#[test]
fn retransmitted_create_keeps_mib_data_sync() {
    let mut mib = Mib::from_identity(&IdentityConfig::default());
    let create = omci_request(ACTION_CREATE, CLASS_ETHERNET_PM_HISTORY_DATA, 3, 0, &[0, 9]);
    assert_eq!(mib.dispatch(&create, &mut NoCrypto).result(), Some(RESULT_SUCCESS));
    let after_first = mib_data_sync(&mib);
    assert_eq!(mib.dispatch(&create, &mut NoCrypto).result(), Some(RESULT_SUCCESS));
    assert_eq!(mib_data_sync(&mib), after_first);
}

#[test]
fn delete_after_create_removes_bridge_port_and_preassign() {
    let mut mib = Mib::from_identity(&IdentityConfig::default());
    let create = omci_request(ACTION_CREATE, CLASS_MAC_BRIDGE_PORT_CONFIG_DATA, 5, 0, &[0u8; 14]);
    assert_eq!(mib.dispatch(&create, &mut NoCrypto).result(), Some(RESULT_SUCCESS));
    assert!(mib.entity(CLASS_MAC_BRIDGE_PORT_FILTER_PREASSIGN_DATA, 5).is_some());

    let delete = omci_request(ACTION_DELETE, CLASS_MAC_BRIDGE_PORT_CONFIG_DATA, 5, 0, &[]);
    assert_eq!(mib.dispatch(&delete, &mut NoCrypto).result(), Some(RESULT_SUCCESS));
    assert!(mib.entity(CLASS_MAC_BRIDGE_PORT_CONFIG_DATA, 5).is_none());
    assert!(mib.entity(CLASS_MAC_BRIDGE_PORT_FILTER_PREASSIGN_DATA, 5).is_none());
    assert_eq!(mib_data_sync(&mib), 2);

    assert_eq!(mib.dispatch(&delete, &mut NoCrypto).result(), Some(RESULT_UNKNOWN_INSTANCE));
}

#[test]
fn delete_refuses_onu_created_instances() {
    let mut mib = Mib::from_identity(&IdentityConfig::default());
    let delete = omci_request(ACTION_DELETE, CLASS_ONU_G, 0, 0, &[]);
    let result = mib.dispatch(&delete, &mut NoCrypto).result();
    assert!(result == Some(RESULT_COMMAND_NOT_SUPPORTED));
    assert!(mib.entity(CLASS_ONU_G, 0).is_some());
}

#[test]
fn mib_reset_restores_autonomous_instances() {
    let mut mib = Mib::from_identity(&IdentityConfig::default());
    let create = omci_request(ACTION_CREATE, CLASS_MAC_BRIDGE_PORT_CONFIG_DATA, 1, 0, &[0u8; 14]);
    assert_eq!(mib.dispatch(&create, &mut NoCrypto).result(), Some(RESULT_SUCCESS));
    assert_eq!(mib_data_sync(&mib), 1);

    let reset = omci_request(ACTION_MIB_RESET, CLASS_ONU_DATA, 0, 0, &[]);
    assert_eq!(mib.dispatch(&reset, &mut NoCrypto).result(), Some(RESULT_SUCCESS));
    assert!(mib.entity(CLASS_MAC_BRIDGE_PORT_CONFIG_DATA, 1).is_none());
    assert!(mib.entity(CLASS_MAC_BRIDGE_PORT_FILTER_PREASSIGN_DATA, 1).is_none());
    assert_eq!(mib_data_sync(&mib), 0);
    assert!(mib.entity(CLASS_ONU_G, 0).is_some());
}

#[test]
fn get_reads_back_the_value_a_set_wrote() {
    let mut mib = Mib::from_identity(&IdentityConfig::default());
    let create = omci_request(ACTION_CREATE, CLASS_MAC_BRIDGE_PORT_CONFIG_DATA, 2, 0, &[0u8; 14]);
    assert_eq!(mib.dispatch(&create, &mut NoCrypto).result(), Some(RESULT_SUCCESS));

    let set = omci_request(ACTION_SET, CLASS_MAC_BRIDGE_PORT_FILTER_PREASSIGN_DATA, 2, 0x0800, &[1]);
    assert_eq!(mib.dispatch(&set, &mut NoCrypto).result(), Some(RESULT_SUCCESS));

    let get = omci_request(ACTION_GET, CLASS_MAC_BRIDGE_PORT_FILTER_PREASSIGN_DATA, 2, 0x0800, &[]);
    let response = mib.dispatch(&get, &mut NoCrypto);
    match response.body {
        ResponseBody::GetSuccess { attribute_mask, values } => {
            assert_eq!(attribute_mask, 0x0800);
            assert_eq!(values, vec![1]);
        },
        _ => panic!("Get after Set did not succeed"),
    }
}

#[test]
fn failed_set_leaves_every_attribute_unchanged() {
    let mut mib = Mib::from_identity(&IdentityConfig::default());
    let create = omci_request(ACTION_CREATE, CLASS_MAC_BRIDGE_PORT_CONFIG_DATA, 3, 0, &[0u8; 14]);
    assert_eq!(mib.dispatch(&create, &mut NoCrypto).result(), Some(RESULT_SUCCESS));
    let sync = mib_data_sync(&mib);

    // Attribute 1 is writable, attribute 16 does not exist: nothing may be written.
    let set = omci_request(ACTION_SET, CLASS_MAC_BRIDGE_PORT_FILTER_PREASSIGN_DATA, 3, 0x8001, &[1, 1]);
    assert_eq!(mib.dispatch(&set, &mut NoCrypto).result(), Some(RESULT_ATTRIBUTE_FAILED));
    assert_eq!(
        mib.entity(CLASS_MAC_BRIDGE_PORT_FILTER_PREASSIGN_DATA, 3).unwrap().attribute(1).unwrap().value(),
        &vec![0]
    );
    assert_eq!(mib_data_sync(&mib), sync);
}

#[test]
fn reads_leave_instances_unchanged() {
    let mut mib = Mib::from_identity(&IdentityConfig::default());
    let before = mib.entity(CLASS_ONU_G, 0).unwrap().attribute(2).unwrap().value().clone();
    let get = omci_request(ACTION_GET, CLASS_ONU_G, 0, 0x4000, &[]);
    assert_eq!(mib.dispatch(&get, &mut NoCrypto).result(), Some(RESULT_SUCCESS));
    let upload = omci_request(ACTION_MIB_UPLOAD, CLASS_ONU_DATA, 0, 0, &[]);
    let _ = mib.dispatch(&upload, &mut NoCrypto);
    assert_eq!(mib.entity(CLASS_ONU_G, 0).unwrap().attribute(2).unwrap().value(), &before);
    assert_eq!(mib_data_sync(&mib), 0);
}

#[test]
fn mib_upload_records_fit_a_baseline_response() {
    let mut mib = Mib::from_identity(&IdentityConfig::default());
    let upload = omci_request(ACTION_MIB_UPLOAD, CLASS_ONU_DATA, 0, 0, &[]);
    let commands = match mib.dispatch(&upload, &mut NoCrypto).body {
        ResponseBody::MibUpload { commands } => commands,
        _ => panic!("MIB Upload did not answer with a command count"),
    };
    assert!(commands > 0);
    for sequence in 0..commands {
        let next = omci_request(ACTION_MIB_UPLOAD_NEXT, CLASS_ONU_DATA, 0, sequence, &[]);
        match mib.dispatch(&next, &mut NoCrypto).body {
            ResponseBody::MibUploadNext { attribute_mask, values, .. } => {
                assert!(attribute_mask != 0);
                assert!(values.len() <= 26);
            },
            _ => panic!("MIB Upload Next did not answer with a record"),
        }
    }
    let past = omci_request(ACTION_MIB_UPLOAD_NEXT, CLASS_ONU_DATA, 0, commands, &[]);
    match mib.dispatch(&past, &mut NoCrypto).body {
        ResponseBody::MibUploadNext { class_id, attribute_mask, values, .. } => {
            assert_eq!((class_id, attribute_mask, values.len()), (0, 0, 0));
        },
        _ => panic!("MIB Upload Next past the end did not answer with an empty record"),
    }
}

#[test]
fn get_next_chunks_reassemble_the_table_get_announced() {
    let mut mib = Mib::from_identity(&IdentityConfig::default());
    let get = omci_request(ACTION_GET, CLASS_OMCI, 0, 0x8000, &[]);
    let length = match mib.dispatch(&get, &mut NoCrypto).body {
        ResponseBody::GetSuccess { attribute_mask, values } => {
            assert_eq!(attribute_mask, 0x8000);
            u32::from_be_bytes([values[0], values[1], values[2], values[3]]) as usize
        },
        _ => panic!("Get of the class table did not succeed"),
    };
    assert!(length > 0);
    let mut table = Vec::new();
    let mut sequence = 0u16;
    while table.len() < length {
        let next = omci_request(ACTION_GET_NEXT, CLASS_OMCI, 0, 0x8000, &sequence.to_be_bytes());
        match mib.dispatch(&next, &mut NoCrypto).body {
            ResponseBody::GetNextSuccess { attribute_mask, values } => {
                assert_eq!(attribute_mask, 0x8000);
                assert!(!values.is_empty() && values.len() <= 29);
                table.extend_from_slice(&values);
            },
            _ => panic!("Get Next inside the table did not succeed"),
        }
        sequence += 1;
    }
    assert_eq!(table.len(), length);
    let rows = mib.entity(CLASS_OMCI, 0).unwrap().attribute(1).unwrap();
    assert!(rows.contains_row(&CLASS_ONU_G.to_be_bytes()));
    assert_eq!(&table[..2], &CLASS_ONU_DATA.to_be_bytes());
}

#[test]
fn failed_security_set_leaves_the_instance_unchanged() {
    let mut mib = Mib::from_identity(&IdentityConfig::default());
    let sync = mib_data_sync(&mib);
    // Attribute 1 is acceptable, attribute 3 = 2 is not: nothing may be written.
    let mut content = vec![0x11u8; 16];
    content.push(2);
    let set = omci_request(ACTION_SET, CLASS_ENHANCED_SECURITY_CONTROL, 0, 0xa000, &content);
    assert_eq!(mib.dispatch(&set, &mut NoCrypto).result(), Some(RESULT_ATTRIBUTE_FAILED));
    let entity = mib.entity(CLASS_ENHANCED_SECURITY_CONTROL, 0).unwrap();
    assert_eq!(entity.attribute(1).unwrap().value(), &vec![0u8; 16]);
    assert_eq!(entity.attribute(3).unwrap().value(), &vec![0u8]);
    assert_eq!(mib_data_sync(&mib), sync);
}

#[test]
fn failed_handshake_step_leaves_the_mib_unchanged() {
    let mut mib = Mib::from_identity(&IdentityConfig::default());
    let mut row = vec![1u8];
    row.extend_from_slice(&[0x21; 16]);
    let challenge = omci_request(ACTION_SET, CLASS_ENHANCED_SECURITY_CONTROL, 0, 0x4000, &row);
    assert_eq!(mib.dispatch(&challenge, &mut NoCrypto).result(), Some(RESULT_SUCCESS));
    let sync = mib_data_sync(&mib);
    mib.take_attribute_value_changes();

    // Raising the OLT challenge status starts step 1, which draws no random block here.
    let start = omci_request(ACTION_SET, CLASS_ENHANCED_SECURITY_CONTROL, 0, 0x2000, &[1]);
    assert_eq!(mib.dispatch(&start, &mut NoCrypto).result(), Some(RESULT_ATTRIBUTE_FAILED));
    let entity = mib.entity(CLASS_ENHANCED_SECURITY_CONTROL, 0).unwrap();
    assert_eq!(entity.attribute(3).unwrap().value(), &vec![0u8]);
    assert_eq!(entity.attribute(2).unwrap().row_count(), 1);
    assert!(mib.take_attribute_value_changes().is_empty());
    assert_eq!(mib_data_sync(&mib), sync);
}

#[test]
fn start_up_mib_reports_the_identity() {
    let identity = IdentityConfig { serial_number: b"HWTC1234".to_vec(), ..IdentityConfig::default() };
    let mib = Mib::from_identity(&identity);
    let value = |class_id: u16, entity_id: u16, index: u8| mib.entity(class_id, entity_id).unwrap().attribute(index).unwrap().value().clone();
    assert_eq!(value(CLASS_ONU_G, 0, 1), b"OWRT".to_vec());
    assert_eq!(value(CLASS_ONU_G, 0, 3), identity.onu_g_serial());
    let mut software = b"OpenWrt".to_vec();
    software.resize(14, 0);
    assert_eq!(value(CLASS_SOFTWARE_IMAGE, 0, 1), software);
    assert_eq!(value(CLASS_SOFTWARE_IMAGE, 1, 1), software);
    assert_eq!(value(CLASS_ONU_DATA, 0, 1), vec![0]);
    for k in 0..16u16 {
        assert_eq!(value(CLASS_TCONT, 0x8000 + k, 1), vec![0xff, 0xff]);
    }
    assert!(mib.entity(CLASS_ENHANCED_SECURITY_CONTROL, 0).is_some());
}

#[test]
fn capability_tables_list_classes_and_actions() {
    let mib = Mib::from_identity(&IdentityConfig::default());
    let omci = mib.entity(CLASS_OMCI, 0).unwrap();
    let classes = omci.attribute(1).unwrap();
    assert!(classes.contains_row(&CLASS_ONU_G.to_be_bytes()));
    assert!(classes.contains_row(&CLASS_ENHANCED_SECURITY_CONTROL.to_be_bytes()));
    assert!(!classes.contains_row(&CLASS_VENDOR_351.to_be_bytes()));
    let messages = omci.attribute(2).unwrap();
    assert!(messages.contains_row(&[ACTION_CREATE]));
    assert!(messages.contains_row(&[ACTION_SET]));
    assert!(!messages.contains_row(&[31]));
}

#[test]
fn delete_of_a_missing_instance_changes_nothing() {
    let mut mib = Mib::from_identity(&IdentityConfig::default());
    let sync = mib_data_sync(&mib);
    let delete = omci_request(ACTION_DELETE, CLASS_MAC_BRIDGE_PORT_CONFIG_DATA, 9, 0, &[]);
    assert_eq!(mib.dispatch(&delete, &mut NoCrypto).result(), Some(RESULT_UNKNOWN_INSTANCE));
    assert_eq!(mib_data_sync(&mib), sync);
}

#[test]
fn set_needs_contents_for_every_selected_attribute() {
    let mut mib = Mib::from_identity(&IdentityConfig::default());
    let create = omci_request(ACTION_CREATE, CLASS_MAC_BRIDGE_PORT_CONFIG_DATA, 4, 0, &[0u8; 14]);
    assert_eq!(mib.dispatch(&create, &mut NoCrypto).result(), Some(RESULT_SUCCESS));
    let short = omci_request(ACTION_SET, CLASS_MAC_BRIDGE_PORT_FILTER_PREASSIGN_DATA, 4, 0xc000, &[1]);
    assert_eq!(mib.dispatch(&short, &mut NoCrypto).result(), Some(RESULT_PARAMETER_ERROR));
    let none = omci_request(ACTION_SET, CLASS_MAC_BRIDGE_PORT_FILTER_PREASSIGN_DATA, 4, 0, &[1]);
    assert_eq!(mib.dispatch(&none, &mut NoCrypto).result(), Some(RESULT_PARAMETER_ERROR));
    let full = omci_request(ACTION_SET, CLASS_MAC_BRIDGE_PORT_FILTER_PREASSIGN_DATA, 4, 0xc000, &[1, 1]);
    assert_eq!(mib.dispatch(&full, &mut NoCrypto).result(), Some(RESULT_SUCCESS));
    let entity = mib.entity(CLASS_MAC_BRIDGE_PORT_FILTER_PREASSIGN_DATA, 4).unwrap();
    assert_eq!(entity.attribute(1).unwrap().value(), &vec![1]);
    assert_eq!(entity.attribute(2).unwrap().value(), &vec![1]);
}
