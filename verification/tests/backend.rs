use lib::omci::backend::{
    clear_value, ALLOC_ID_RECHECK_MS, desired_paths, master_session_key_value, parse_active_serial_number, parse_current_mapping,
    replace_value, BackendStatus, DataPathBackend, DesiredPaths, MappingError, ReconcileStep, WriteOutcome,
};
use lib::omci::provisioning::{DataPathCandidate, DATA_PATH_VLAN_ANY};

fn path(alloc_id: u16, gem_id: u16, vlan_id: u16, pbit_mask: u8, multicast: bool) -> DataPathCandidate {
    DataPathCandidate { alloc_id, gem_id, vlan_id, pbit_mask, multicast }
}

#[test]
fn mapping_is_empty_unless_configured() {
    assert_eq!(parse_current_mapping("configured=0 path=1:2:3:ff").unwrap(), vec![]);
    assert_eq!(parse_current_mapping("").unwrap(), vec![]);
}

#[test]
fn mapping_reads_every_path_record() {
    let paths = parse_current_mapping("state=up configured=1 path=1024:1025:100:ff path=1024:4000:65535:0f:1\n")
        .unwrap();
    assert_eq!(paths, vec![path(1024, 1025, 100, 0xff, false), path(1024, 4000, 65535, 0x0f, true)]);
}

#[test]
fn mapping_errors_name_the_bad_field() {
    assert_eq!(parse_current_mapping("configured=1 path=x:1:1:1"), Err(MappingError::InvalidAllocId));
    assert_eq!(parse_current_mapping("configured=1 path=1"), Err(MappingError::InvalidGemId));
    assert_eq!(parse_current_mapping("configured=1 path=1:2:70000:1"), Err(MappingError::InvalidVlanId));
    assert_eq!(parse_current_mapping("configured=1 path=1:2:3:1ff"), Err(MappingError::InvalidPbitMask));
    assert_eq!(parse_current_mapping("configured=1 path=1:2:3:ff:2"), Err(MappingError::InvalidGemType));
    assert_eq!(parse_current_mapping("configured=1 path=1:2:3:ff:0:9"), Err(MappingError::TooManyFields));
    assert_eq!(parse_current_mapping("configured=1"), Err(MappingError::NoPathEntries));
    assert_eq!(MappingError::InvalidPbitMask.message(), "invalid pbit mask");
    assert_eq!(MappingError::NoPathEntries.message(), "configured data path contains no path entries");
}

#[test]
fn single_unicast_gem_accepts_every_vlan() {
    let paths = vec![path(1, 10, 100, 0x01, false), path(1, 10, 200, 0x02, false), path(2, 30, 300, 0xff, true)];
    match desired_paths(&paths) {
        DesiredPaths::Paths { paths } => {
            assert_eq!(paths, vec![path(1, 10, DATA_PATH_VLAN_ANY, 0xff, false), path(2, 30, 300, 0xff, true)]);
        },
        DesiredPaths::Ambiguous { .. } => panic!("one GEM is never ambiguous"),
    }
}

#[test]
fn overlapping_gems_are_ambiguous() {
    let paths = vec![path(1, 10, 100, 0x03, false), path(1, 11, 100, 0x02, false)];
    assert!(matches!(desired_paths(&paths), DesiredPaths::Ambiguous { gem_count: 2 }));
    let no_pbits = vec![path(1, 10, 100, 0x01, false), path(1, 11, 200, 0x00, false)];
    assert!(matches!(desired_paths(&no_pbits), DesiredPaths::Ambiguous { gem_count: 2 }));
    let separate = vec![path(1, 10, 100, 0x01, false), path(1, 11, 100, 0x02, false)];
    match desired_paths(&separate) {
        DesiredPaths::Paths { paths } => assert_eq!(paths, separate),
        DesiredPaths::Ambiguous { .. } => panic!("disjoint P-bits are not ambiguous"),
    }
}

#[test]
fn replace_value_lists_every_path() {
    let paths = vec![path(1024, 1025, 100, 0x0f, false), path(7, 8, 65535, 0xff, true)];
    assert_eq!(replace_value(&paths), "replace 1024:1025:100:0f:0 7:8:65535:ff:1\n");
    assert_eq!(clear_value(), "clear\n");
}

#[test]
fn master_session_key_is_written_as_hex() {
    let mut key = [0u8; 16];
    key[0] = 0xab;
    key[15] = 0x01;
    assert_eq!(master_session_key_value(&key), "ab000000000000000000000000000001\n");
}

#[test]
fn active_serial_number_reads_hex_or_none() {
    assert_eq!(parse_active_serial_number(" none\n"), Ok(None));
    assert_eq!(
        parse_active_serial_number("4142434400000001\n"),
        Ok(Some([0x41, 0x42, 0x43, 0x44, 0, 0, 0, 1]))
    );
    assert_eq!(parse_active_serial_number("414"), Err("odd digit count"));
    assert_eq!(parse_active_serial_number("41zz"), Err("non-hex digit"));
    assert_eq!(parse_active_serial_number("4142"), Err("active PON serial number is not eight bytes"));
}

fn state(backend: &DataPathBackend) -> BackendStatus {
    backend.status()
}

#[test]
fn reconcile_installs_then_settles() {
    let mut backend = DataPathBackend::for_omci_interface(vec![], 30);
    assert_eq!(state(&backend).state, "waiting-for-gem");
    let desired = vec![path(1, 10, 100, 0xff, false)];

    let step = backend.begin_reconcile(Ok(vec![]), &desired);
    let value = match step {
        ReconcileStep::Write { value } => value,
        ReconcileStep::Publish { .. } => panic!("new paths must be written"),
    };
    assert_eq!(value, format!("replace 1:10:{}:ff:0\n", DATA_PATH_VLAN_ANY));
    assert!(backend.finish_reconcile(WriteOutcome::Written, 0));
    let status = state(&backend);
    assert_eq!(status.state, "applied");
    assert_eq!(status.active_alloc_id, Some(1));
    assert_eq!(status.active_gem_id, Some(10));
    assert!(status.all_vlans);

    let applied = vec![path(1, 10, DATA_PATH_VLAN_ANY, 0xff, false)];
    assert!(matches!(backend.begin_reconcile(Ok(applied), &desired), ReconcileStep::Publish { ready: true }));
    assert_eq!(state(&backend).state, "applied");
}

#[test]
fn reconcile_waits_for_alloc_id_and_reports_failures() {
    let mut backend = DataPathBackend::for_omci_interface(vec![path(3, 4, 5, 1, false)], 30);
    assert_eq!(state(&backend).state, "kernel-mapping-present");
    let desired = vec![path(1, 10, 100, 0x01, false), path(1, 11, 200, 0x02, false)];

    assert!(matches!(backend.begin_reconcile(Ok(vec![]), &desired), ReconcileStep::Write { .. }));
    assert!(!backend.finish_reconcile(WriteOutcome::WouldBlock { message: "busy".to_string() }, 0));
    assert_eq!(state(&backend).state, "waiting-for-alloc-id");

    assert!(matches!(backend.begin_reconcile(Err("no such file".to_string()), &desired), ReconcileStep::Publish { ready: false }));
    let status = state(&backend);
    assert_eq!(status.state, "apply-failed");
    assert_eq!(status.error.as_deref(), Some("no such file"));
}

#[test]
fn reconcile_clears_ambiguous_and_removed_paths() {
    let mut backend = DataPathBackend::for_omci_interface(vec![], 30);
    let ambiguous = vec![path(1, 10, 100, 0x03, false), path(1, 11, 100, 0x02, false)];
    let installed = vec![path(1, 10, 100, 0x03, false)];
    match backend.begin_reconcile(Ok(installed.clone()), &ambiguous) {
        ReconcileStep::Write { value } => assert_eq!(value, "clear\n"),
        ReconcileStep::Publish { .. } => panic!("installed paths must be cleared"),
    }
    assert!(!backend.finish_reconcile(WriteOutcome::Written, 0));
    let status = state(&backend);
    assert_eq!(status.state, "ambiguous-gem-mapping");
    assert_eq!(
        status.error.as_deref(),
        Some("2 bidirectional GEM paths contain overlapping VLAN/802.1p rules")
    );
    assert_eq!(status.active_gem_id, None);

    match backend.begin_reconcile(Ok(installed), &vec![]) {
        ReconcileStep::Write { value } => assert_eq!(value, "clear\n"),
        ReconcileStep::Publish { .. } => panic!("installed paths must be cleared"),
    }
    assert!(!backend.finish_reconcile(WriteOutcome::Failed { message: "denied".to_string() }, 0));
    assert_eq!(state(&backend).state, "clear-failed");

    assert!(matches!(backend.begin_reconcile(Ok(vec![]), &vec![]), ReconcileStep::Publish { ready: false }));
    assert_eq!(state(&backend).state, "waiting-for-gem");
    assert_eq!(BackendStatus::default().state, "waiting-for-gem");
}

#[test]
fn written_paths_read_back_from_the_kernel_report() {
    let paths = vec![path(1024, 1025, 100, 0x0f, false), path(7, 8, 65535, 0xff, true), path(0, 0, 0, 0, false)];
    let written = replace_value(&paths);
    let records: Vec<String> = written.trim_end().split(' ').skip(1).map(|record| format!("path={record}")).collect();
    let reported = format!("configured=1 {}", records.join(" "));
    assert_eq!(parse_current_mapping(&reported).unwrap(), paths);
}

fn refuse(backend: &mut DataPathBackend, desired: &Vec<DataPathCandidate>, now: u64) -> &'static str {
    assert!(matches!(backend.begin_reconcile(Ok(vec![]), desired), ReconcileStep::Write { .. }));
    assert!(!backend.finish_reconcile(WriteOutcome::WouldBlock { message: "Resource temporarily unavailable".to_string() }, now));
    backend.status().state
}

#[test]
fn held_back_paths_time_out_then_still_apply() {
    let mut backend = DataPathBackend::for_omci_interface(vec![], 5);
    let desired = vec![path(1, 10, 100, 0xff, false)];
    assert_eq!(backend.recheck_interval(), None);
    assert_eq!(refuse(&mut backend, &desired, 1_000), "waiting-for-alloc-id");
    assert_eq!(backend.recheck_interval(), Some(ALLOC_ID_RECHECK_MS));
    assert_eq!(refuse(&mut backend, &desired, 5_999), "waiting-for-alloc-id");
    assert_eq!(refuse(&mut backend, &desired, 6_000), "alloc-id-timeout");
    assert_eq!(backend.recheck_interval(), Some(ALLOC_ID_RECHECK_MS));

    // The kernel kept the request: once PLOAM assigns the Alloc-ID it reports the paths.
    let applied = vec![path(1, 10, DATA_PATH_VLAN_ANY, 0xff, false)];
    assert!(matches!(backend.begin_reconcile(Ok(applied), &desired), ReconcileStep::Publish { ready: true }));
    assert_eq!(backend.status().state, "applied");
    assert_eq!(backend.recheck_interval(), None);
}

#[test]
fn zero_alloc_id_timeout_waits_forever() {
    let mut backend = DataPathBackend::for_omci_interface(vec![], 0);
    let desired = vec![path(1, 10, 100, 0xff, false)];
    assert_eq!(refuse(&mut backend, &desired, 0), "waiting-for-alloc-id");
    assert_eq!(refuse(&mut backend, &desired, u64::MAX), "waiting-for-alloc-id");
}
