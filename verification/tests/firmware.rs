use forgehx::firmware::{
    sha256_hex, state_name, validate_package, FirmwareError, FirmwareJournal, FirmwareRegistry,
    FirmwareStager, FirmwareTransaction,
};
use forgehx::model::{
    ConnectionKind, DeviceClass, DeviceId, DeviceInfo, FirmwareSupportLevel,
    FirmwareTransactionState, FirmwareValidation, SupportLevel, VendorFamily,
};

fn mic(vendor_id: u16, product_id: u16, name: &str, vendor_family: VendorFamily) -> DeviceInfo {
    DeviceInfo {
        id: DeviceId("mic".into()),
        name: name.into(),
        manufacturer: Some("HyperX".into()),
        vendor_id,
        product_id,
        serial: None,
        vendor_family,
        device_class: DeviceClass::Microphone,
        support_level: SupportLevel::GenericControls,
        connection_kind: ConnectionKind::Usb,
        interfaces: vec![],
        capabilities: vec![],
        generic_capabilities: vec![],
        capability_owners: vec![],
        battery_percent: None,
        battery_state: None,
        protocol: None,
    }
}

fn transaction(level: FirmwareSupportLevel) -> FirmwareTransaction {
    FirmwareTransaction::new("tx".into(), DeviceId("mic".into()), "stage".into(), level)
}

#[test]
fn exact_quadcast_s_matches_inventory_adapter() {
    let adapter = FirmwareRegistry::for_device(&mic(0x0951, 0x171f, "HyperX QuadCast S", VendorFamily::HyperX)).unwrap();
    assert!(adapter.exact_hardware_match);
    assert!(!adapter.support_level.can_update());
}

#[test]
fn exact_solocast_2_matches_inventory_adapter() {
    let adapter = FirmwareRegistry::for_device(&mic(0x03f0, 0x0fbf, "HyperX SoloCast 2", VendorFamily::HyperX)).unwrap();
    assert_eq!(adapter.id, "hyperx-solocast-2-firmware");
    assert!(adapter.exact_hardware_match);
    assert!(!adapter.support_level.can_update());
}

#[test]
fn unknown_hp_vid_never_matches_by_vendor_id_alone() {
    assert!(FirmwareRegistry::for_device(&mic(0x03f0, 0xffff, "HP USB Microphone", VendorFamily::Hp)).is_none());
}

#[test]
fn name_only_hyperx_recognition_remains_inventory_only() {
    let adapter = FirmwareRegistry::for_device(&mic(0, 0, "HyperX SoloCast Microphone", VendorFamily::HyperX)).unwrap();
    assert!(!adapter.exact_hardware_match);
    assert_eq!(adapter.support_level, FirmwareSupportLevel::InventoryOnly);
}

#[test]
fn update_capable_transaction_accepts_only_ordered_path() {
    let mut tx = transaction(FirmwareSupportLevel::UpdateCapable);
    for state in [
        FirmwareTransactionState::PackageStaged,
        FirmwareTransactionState::Validated,
        FirmwareTransactionState::PreflightPassed,
        FirmwareTransactionState::AudioDetached,
        FirmwareTransactionState::EnteringUpdateMode,
        FirmwareTransactionState::AwaitingUpdateDevice,
        FirmwareTransactionState::Flashing,
        FirmwareTransactionState::Finalizing,
        FirmwareTransactionState::AwaitingNormalDevice,
        FirmwareTransactionState::Verifying,
        FirmwareTransactionState::RestoringProfile,
        FirmwareTransactionState::Completed,
    ] {
        tx.transition(state).unwrap();
    }
    assert_eq!(tx.status.progress_percent, Some(100));
}

#[test]
fn transaction_rejects_skipping_directly_to_flashing() {
    let mut tx = transaction(FirmwareSupportLevel::UpdateCapable);
    tx.transition(FirmwareTransactionState::PackageStaged).unwrap();
    tx.transition(FirmwareTransactionState::Validated).unwrap();
    assert!(tx.transition(FirmwareTransactionState::Flashing).is_err());
}

#[test]
fn inventory_only_transaction_never_enters_update_transport() {
    let mut tx = transaction(FirmwareSupportLevel::InventoryOnly);
    tx.transition(FirmwareTransactionState::PackageStaged).unwrap();
    tx.transition(FirmwareTransactionState::Validated).unwrap();
    tx.transition(FirmwareTransactionState::PreflightPassed).unwrap();
    tx.transition(FirmwareTransactionState::AudioDetached).unwrap();
    assert!(matches!(
        tx.transition(FirmwareTransactionState::EnteringUpdateMode),
        Err(FirmwareError::UpdateNotEnabled)
    ));
}

#[test]
fn failure_is_accepted_from_any_state() {
    let mut tx = transaction(FirmwareSupportLevel::InventoryOnly);
    tx.transition(FirmwareTransactionState::PackageStaged).unwrap();
    assert!(tx.transition(FirmwareTransactionState::FlashFailed).is_ok());
    assert_eq!(tx.status.state, FirmwareTransactionState::FlashFailed);
}

#[test]
fn sha256_of_known_input() {
    assert_eq!(
        sha256_hex(b"abc"),
        "ba7816bf8f01cfea414140de5dae2223b00361a396177a9cb410ff61f20015ad"
    );
    assert_eq!(
        sha256_hex(b""),
        "e3b0c44298fc1c149afbf4c8996fb92427ae41e4649b934ca495991b7852b855"
    );
}

#[test]
fn staged_record_names_copy_by_pid_and_time() {
    let stager = FirmwareStager::new("/var/lib/forgehx/staged".into());
    let record = stager.staged_record(
        &DeviceId("mic".into()),
        &"update.bin".to_string(),
        42,
        0xabc,
        b"original firmware bytes",
    );
    assert_eq!(record.staged_id, "fw-42-abc");
    assert_eq!(record.path, "/var/lib/forgehx/staged/fw-42-abc.img");
    assert_eq!(record.size_bytes, 23);
    assert_eq!(record.sha256, sha256_hex(b"original firmware bytes"));
}

#[test]
fn journal_paths_stay_under_root() {
    let journal = FirmwareJournal::new("/state/journal".into());
    assert_eq!(journal.record_path("tx1"), "/state/journal/tx1.json");
}

#[test]
fn package_stays_opaque_with_unknown_version() {
    let adapter = FirmwareRegistry::for_device(&mic(0x03f0, 0x0fbf, "HyperX SoloCast 2", VendorFamily::HyperX)).unwrap();
    let stager = FirmwareStager::new("/tmp/s".into());
    let staged = stager.staged_record(&DeviceId("mic".into()), &"f.bin".to_string(), 1, 1, b"data");
    let info = validate_package(&adapter, &staged);
    assert_eq!(info.parsed_format, "opaque");
    assert_eq!(info.validation, FirmwareValidation::VersionUnknown);
    assert_eq!(info.claimed_model.as_deref(), Some(adapter.model.as_str()));
    assert!(!info.vendor_signature_verified);
    assert_eq!(info.size_bytes, 4);
}

#[test]
fn refused_transitions_name_both_states() {
    let mut tx = transaction(FirmwareSupportLevel::UpdateCapable);
    tx.transition(FirmwareTransactionState::PackageStaged).unwrap();
    match tx.transition(FirmwareTransactionState::Flashing) {
        Err(FirmwareError::InvalidTransition(m)) => assert_eq!(m, "PackageStaged -> Flashing"),
        other => panic!("unexpected {other:?}"),
    }
    assert_eq!(state_name(FirmwareTransactionState::AwaitingNormalDevice), "AwaitingNormalDevice");
    assert_eq!(state_name(FirmwareTransactionState::RecoveryRequired), "RecoveryRequired");
}

#[test]
fn refused_transition_leaves_the_status_as_it_was() {
    let mut tx = transaction(FirmwareSupportLevel::UpdateCapable);
    tx.transition(FirmwareTransactionState::PackageStaged).unwrap();
    let before = tx.status.clone();
    assert!(tx.transition(FirmwareTransactionState::Completed).is_err());
    assert_eq!(tx.status.state, before.state);
    assert_eq!(tx.status.progress_percent, before.progress_percent);
    assert_eq!(tx.status.device_id, before.device_id);
    assert_eq!(tx.status.message, before.message);
    assert_eq!(tx.status.transaction_id, before.transaction_id);
    tx.transition(FirmwareTransactionState::Validated).unwrap();
    assert_eq!(tx.status.device_id, DeviceId("mic".into()));
    assert_eq!(tx.status.message, None);
}
