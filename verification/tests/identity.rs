use lib::omci::config::IdentityConfig;
use lib::omci::mib::Mib;
use lib::omci::protocol::{Encoding, Request, ACTION_SET, RESULT_SUCCESS};
use lib::omci::schema::CLASS_OLT_G;
use lib::omci::security::SessionCrypto;

struct NoSession;

impl SessionCrypto for NoSession {
    fn random_block(&mut self) -> Option<[u8; 16]> {
        None
    }

    fn onu_random_challenge(&mut self, olt_challenge: &[u8; 16], _random: &[u8; 16]) -> [u8; 16] {
        *olt_challenge
    }

    fn authentication_result(
        &mut self,
        _olt: &Vec<[u8; 16]>,
        _onu: &Vec<[u8; 16]>,
        _serial: &[u8; 8],
        _onu_result: bool,
    ) -> Option<[u8; 16]> {
        None
    }

    fn master_session_key_name(&mut self, _olt: &Vec<[u8; 16]>, _onu: &Vec<[u8; 16]>) -> Option<[u8; 16]> {
        None
    }

    fn master_session_key(&mut self, _olt: &Vec<[u8; 16]>, _onu: &Vec<[u8; 16]>) -> Option<[u8; 16]> {
        None
    }
}

fn olt_g_set(attribute_mask: u16, content: &[u8]) -> Request {
    Request {
        encoding: Encoding::Baseline,
        tci: 3,
        message_type: 0x48,
        action: ACTION_SET,
        class_id: CLASS_OLT_G,
        entity_id: 0,
        attribute_mask,
        payload: content.to_vec(),
        content: content.to_vec(),
    }
}

#[test]
fn serial_number_text_forms_give_eight_bytes() {
    let identity = |serial: &[u8]| IdentityConfig { serial_number: serial.to_vec(), ..IdentityConfig::default() };
    assert_eq!(identity(b"ABCD12345678").onu_g_serial(), vec![b'A', b'B', b'C', b'D', 0x12, 0x34, 0x56, 0x78]);
    assert_eq!(identity(b" hex:4142434400000001\n").onu_g_serial(), vec![0x41, 0x42, 0x43, 0x44, 0, 0, 0, 1]);
    assert_eq!(identity(&[1, 2, 3, 4, 5, 6, 7, 8]).onu_g_serial(), vec![1, 2, 3, 4, 5, 6, 7, 8]);
    let vendor = IdentityConfig { vendor_id: b"VEND".to_vec(), serial_number: vec![0xff, 0xfe, 0x41], ..IdentityConfig::default() };
    assert_eq!(vendor.onu_g_serial(), vec![b'V', b'E', b'N', b'D', 0, 0, 0, 0]);
    let bad_digits = IdentityConfig { vendor_id: b"VEND".to_vec(), serial_number: b"ABCDxyz45678".to_vec(), ..IdentityConfig::default() };
    assert_eq!(bad_digits.onu_g_serial(), vec![b'V', b'E', b'N', b'D', 0, 0, 0, 0]);
}

#[test]
fn olt_g_text_is_reported_without_padding() {
    let mut mib = Mib::from_identity(&IdentityConfig::default());
    assert_eq!(mib.dispatch(&olt_g_set(0x8000, b"HWTC"), &mut NoSession).result(), Some(RESULT_SUCCESS));
    let mut version = [0u8; 14];
    version[..6].copy_from_slice(b"V1R2  ");
    assert_eq!(mib.dispatch(&olt_g_set(0x2000, &version), &mut NoSession).result(), Some(RESULT_SUCCESS));
    let mut equipment = [0xffu8; 20];
    equipment[..3].copy_from_slice(&[b'M', 0xc3, b'X']);
    assert_eq!(mib.dispatch(&olt_g_set(0x4000, &equipment), &mut NoSession).result(), Some(RESULT_SUCCESS));

    let snapshot = mib.provisioning_snapshot();
    assert_eq!(snapshot.olt_vendor_id, "HWTC");
    assert_eq!(snapshot.olt_version, "V1R2");
    assert_eq!(snapshot.olt_equipment_id, "M\u{fffd}X");
}

fn options_with(
    omcc_version: Option<&str>,
    disable_enhanced_security: Option<&str>,
    alloc_id_timeout: Option<&str>,
    vendor_id: Option<&str>,
) -> IdentityConfig {
    IdentityConfig::from_options(omcc_version, disable_enhanced_security, alloc_id_timeout, vendor_id, None, None, None, None, None, None, None)
}

#[test]
fn absent_options_keep_the_defaults() {
    let config = options_with(None, None, None, None);
    let default = IdentityConfig::default();
    assert_eq!(config.omcc_version, 0xb0);
    assert!(!config.disable_enhanced_security);
    assert_eq!(config.alloc_id_timeout, 30);
    assert_eq!(config.vendor_id, default.vendor_id);
    assert_eq!(config.equipment_id, default.equipment_id);
    assert_eq!(config.operator_id, b"CTC".to_vec());
    assert!(config.loid.is_empty());
}

#[test]
fn omcc_version_accepts_0x86_and_falls_back_to_0xb0() {
    assert_eq!(options_with(Some("0x86"), None, None, None).omcc_version, 0x86);
    assert_eq!(options_with(Some("0xb0"), None, None, None).omcc_version, 0xb0);
    assert_eq!(options_with(Some("0x87"), None, None, None).omcc_version, 0xb0);
    assert_eq!(options_with(Some(""), None, None, None).omcc_version, 0xb0);
}

#[test]
fn enhanced_security_is_disabled_only_by_one() {
    assert!(options_with(None, Some("1"), None, None).disable_enhanced_security);
    assert!(!options_with(None, Some("0"), None, None).disable_enhanced_security);
    assert!(!options_with(None, Some("yes"), None, None).disable_enhanced_security);
}

#[test]
fn alloc_id_timeout_option_parses_seconds() {
    assert_eq!(options_with(None, None, Some("45"), None).alloc_id_timeout, 45);
    assert_eq!(options_with(None, None, Some("0"), None).alloc_id_timeout, 0);
    assert_eq!(options_with(None, None, Some("+7"), None).alloc_id_timeout, 7);
    assert_eq!(options_with(None, None, Some("4294967295"), None).alloc_id_timeout, u32::MAX);
    assert_eq!(options_with(None, None, Some("4294967296"), None).alloc_id_timeout, 30);
    assert_eq!(options_with(None, None, Some("soon"), None).alloc_id_timeout, 30);
    assert_eq!(options_with(None, None, Some(""), None).alloc_id_timeout, 30);
}

#[test]
fn text_options_replace_defaults_unless_empty() {
    assert_eq!(options_with(None, None, None, Some("HWTC")).vendor_id, b"HWTC".to_vec());
    assert_eq!(options_with(None, None, None, Some("")).vendor_id, IdentityConfig::default().vendor_id);
    let config = IdentityConfig::from_options(
        None, None, None, None, Some("EQ"), Some("HW1"), Some("SW2"), Some("loid"), Some("pw"), Some("OP"), Some("HWTC12345678"),
    );
    assert_eq!(config.equipment_id, b"EQ".to_vec());
    assert_eq!(config.hardware_version, b"HW1".to_vec());
    assert_eq!(config.software_version, b"SW2".to_vec());
    assert_eq!(config.loid, b"loid".to_vec());
    assert_eq!(config.loid_password, b"pw".to_vec());
    assert_eq!(config.operator_id, b"OP".to_vec());
    assert_eq!(config.serial_number, b"HWTC12345678".to_vec());
}
