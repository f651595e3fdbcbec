use forgehx::cli::{device_line, lighting_request, parse_hex_color};
use forgehx::model::{
    BackendKind, Capability, CapabilityOwner, ConnectionKind, DeviceClass, DeviceId, DeviceInfo,
    LightingEffect, SupportLevel, VendorFamily,
};

#[test]
fn parses_rgb_hex() {
    assert_eq!(parse_hex_color("#12abef").unwrap(), [0x12, 0xab, 0xef]);
    assert!(parse_hex_color("bad").is_err());
}

#[test]
fn hex_color_accepts_bare_digits_and_rejects_bad_ones() {
    assert_eq!(parse_hex_color("FF0080").unwrap(), [0xff, 0x00, 0x80]);
    assert_eq!(
        parse_hex_color("#12345").unwrap_err(),
        "RGB color must be RRGGBB or #RRGGBB"
    );
    assert_eq!(
        parse_hex_color("#12345g").unwrap_err(),
        "RGB color contains invalid hex digits"
    );
}

fn owner(capability: Capability, backend: BackendKind, writable: bool) -> CapabilityOwner {
    CapabilityOwner {
        capability,
        backend,
        backend_device_id: None,
        verified: true,
        writable,
        detail: None,
    }
}

fn listed(vendor_id: u16, product_id: u16, owners: Vec<CapabilityOwner>) -> DeviceInfo {
    DeviceInfo {
        id: DeviceId("dev-1".into()),
        name: "HyperX Cloud".into(),
        manufacturer: None,
        vendor_id,
        product_id,
        serial: None,
        vendor_family: VendorFamily::Generic("Acme".into()),
        device_class: DeviceClass::UsbAudio,
        support_level: SupportLevel::GenericControls,
        connection_kind: ConnectionKind::Usb,
        interfaces: vec![],
        capabilities: vec![],
        generic_capabilities: vec![],
        capability_owners: owners,
        battery_percent: None,
        battery_state: None,
        protocol: None,
    }
}

#[test]
fn device_line_lists_writable_owners() {
    let device = listed(
        0x03f0,
        0x0aa1,
        vec![
            owner(Capability::Volume, BackendKind::LinuxStandard, true),
            owner(Capability::Lighting, BackendKind::OpenRgb, false),
            owner(Capability::Dpi, BackendKind::Ratbag, true),
        ],
    );
    assert_eq!(
        device_line(&device),
        "dev-1\tHyperX Cloud\tAcme\tUSB Audio\tGeneric Controls\t03f0:0aa1\tVolume=Linux Standard,Dpi=libratbag"
    );
}

#[test]
fn device_line_without_usb_id_or_owners() {
    assert_eq!(
        device_line(&listed(0, 0, vec![])),
        "dev-1\tHyperX Cloud\tAcme\tUSB Audio\tGeneric Controls\t----:----\t"
    );
}

#[test]
fn lighting_request_holds_levels_to_100() {
    let config = lighting_request(LightingEffect::Wave, [1, 2, 3], 150, 100);
    assert_eq!(config.effect, LightingEffect::Wave);
    assert_eq!(config.color, [1, 2, 3]);
    assert_eq!(config.brightness, 100);
    assert_eq!(config.speed, 100);
    let config = lighting_request(LightingEffect::Static, [0, 0, 0], 40, 101);
    assert_eq!(config.brightness, 40);
    assert_eq!(config.speed, 100);
}
