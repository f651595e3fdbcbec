use forgehx::backends::{
    match_external_device, select_owner, select_owner_with_health, BackendCandidate,
    ExternalIdentity, MatchError,
};
use forgehx::model::{
    BackendHealth, BackendKind, Capability, CapabilityOwner, ConnectionKind, DeviceClass, DeviceId,
    DeviceInfo, SupportLevel, VendorFamily,
};

fn owner(backend: BackendKind) -> CapabilityOwner {
    CapabilityOwner {
        capability: Capability::Lighting,
        backend,
        backend_device_id: Some("x".into()),
        verified: backend == BackendKind::ForgeHxNative,
        writable: true,
        detail: None,
    }
}

fn device() -> DeviceInfo {
    DeviceInfo {
        id: DeviceId("hx".into()),
        name: "HyperX Alloy Origins".into(),
        manufacturer: Some("HyperX".into()),
        vendor_id: 0x0951,
        product_id: 0x16e5,
        serial: Some("ABC123".into()),
        vendor_family: VendorFamily::HyperX,
        device_class: DeviceClass::Keyboard,
        support_level: SupportLevel::DiagnosticOnly,
        connection_kind: ConnectionKind::Hid,
        interfaces: vec![],
        capabilities: vec![],
        generic_capabilities: vec![],
        capability_owners: vec![],
        battery_percent: None,
        battery_state: None,
        protocol: None,
    }
}

fn identity(id: &str, name: &str, serial: Option<&str>) -> ExternalIdentity {
    ExternalIdentity {
        id: id.into(),
        name: name.into(),
        vendor: Some("HyperX".into()),
        serial: serial.map(|s| s.into()),
        location: None,
        vendor_id: None,
        product_id: None,
    }
}

#[test]
fn native_beats_compatibility_backend() {
    let selected = select_owner(
        Capability::Lighting,
        &[owner(BackendKind::OpenRgb), owner(BackendKind::ForgeHxNative)],
    )
    .unwrap();
    assert_eq!(selected.backend, BackendKind::ForgeHxNative);
}

#[test]
fn unhealthy_backend_is_rejected() {
    let selected = select_owner_with_health(
        Capability::Lighting,
        &[
            BackendCandidate {
                owner: owner(BackendKind::OpenRgb),
                health: BackendHealth::Disconnected,
            },
            BackendCandidate {
                owner: owner(BackendKind::Diagnostic),
                health: BackendHealth::Ready,
            },
        ],
    )
    .unwrap();
    assert_eq!(selected.backend, BackendKind::Diagnostic);
}

#[test]
fn no_candidate_for_capability_selects_nothing() {
    assert!(select_owner(Capability::Dpi, &[owner(BackendKind::ForgeHxNative)]).is_none());
}

#[test]
fn writable_beats_read_only_of_same_backend() {
    let mut read_only = owner(BackendKind::LinuxStandard);
    read_only.writable = false;
    read_only.detail = Some("first".into());
    let mut writable = owner(BackendKind::LinuxStandard);
    writable.detail = Some("second".into());
    let selected = select_owner(Capability::Lighting, &[read_only, writable]).unwrap();
    assert_eq!(selected.detail.as_deref(), Some("second"));
}

#[test]
fn serial_exact_match_wins() {
    let values = vec![
        identity("0", "HyperX Alloy Origins", None),
        identity("1", "Keyboard", Some("ABC123")),
    ];
    assert_eq!(match_external_device(&device(), &values).unwrap().id, "1");
}

#[test]
fn equal_matches_are_ambiguous_and_strangers_do_not_match() {
    let twins = vec![
        identity("0", "HyperX Alloy Origins", None),
        identity("1", "HyperX Alloy Origins", None),
    ];
    assert_eq!(
        match_external_device(&device(), &twins).unwrap_err(),
        MatchError::Ambiguous
    );
    let mut stranger = identity("9", "Mouse", None);
    stranger.vendor = Some("Other".into());
    assert_eq!(
        match_external_device(&device(), &[stranger]).unwrap_err(),
        MatchError::NoMatch
    );
}

#[test]
fn match_errors_say_why() {
    assert_eq!(MatchError::NoMatch.message(), "no deterministic external-device match");
    assert_eq!(MatchError::Ambiguous.message(), "ambiguous external-device match");
}
