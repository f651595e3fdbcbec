use forgehx::device::{
    attach_battery_metadata, discover_from, doctor_reports, driver_for, ensure_write_allowed,
    group_interfaces, hyperx_devices, hyperx_indices, is_usb_device_entry, merge_class,
    parse_capacity, parse_sysfs_hex_u16, parse_sysfs_hex_u8, raw_from_hid, read_trimmed_value, sort_batteries, sort_usb_descriptors,
    usb_class_codes, vendor_family, BatteryDescriptor,
    DeviceError, HidDescriptor, NativeModel, SystemUsbBackend, UsbDescriptor,
};
use forgehx::model::{Capability, ConnectionKind, DeviceClass, SupportLevel, VendorFamily};

fn hid(
    vendor_id: u16,
    product_id: u16,
    manufacturer: &str,
    product: &str,
    serial: &str,
    usage: u16,
) -> HidDescriptor {
    HidDescriptor {
        path: format!("/dev/hidraw-{serial}-{usage}"),
        vendor_id,
        product_id,
        manufacturer: Some(manufacturer.into()),
        product: Some(product.into()),
        serial: Some(serial.into()),
        interface_number: usage as i32,
        usage_page: 0x01,
        usage,
        usb_parent: None,
    }
}

#[test]
fn universal_discovery_keeps_non_hyperx_hid() {
    let hid_list = vec![hid(0x046d, 0xc539, "Logitech", "Gaming Mouse", "LOGI1", 0x02)];
    let devices = discover_from(Ok(hid_list), Ok(Vec::new()), Ok(Vec::new()), &[]).unwrap();
    assert_eq!(devices.len(), 1);
    assert_eq!(devices[0].info.vendor_family, VendorFamily::Logitech);
    assert_eq!(devices[0].info.device_class, DeviceClass::Mouse);
}

#[test]
fn hp_device_requires_hyperx_evidence() {
    let ordinary = raw_from_hid(hid(0x03f0, 0x1111, "HP", "USB Keyboard", "HP1", 0x06));
    let hyperx = raw_from_hid(hid(0x03f0, 0x2222, "HP", "HyperX Alloy Test", "HX1", 0x06));
    assert_eq!(vendor_family(&ordinary), VendorFamily::Hp);
    assert_eq!(vendor_family(&hyperx), VendorFamily::HyperX);
}

#[test]
fn same_serial_groups_multiple_interfaces() {
    let hid_list = vec![
        hid(0x0951, 0x1234, "HyperX", "HyperX Test", "SERIAL", 0x06),
        hid(0x0951, 0x1234, "HyperX", "HyperX Test", "SERIAL", 0x01),
    ];
    let devices = discover_from(Ok(hid_list), Ok(Vec::new()), Ok(Vec::new()), &[]).unwrap();
    assert_eq!(devices.len(), 1);
    assert_eq!(devices[0].info.interfaces.len(), 2);
}

#[test]
fn shared_usb_parent_groups_hid_and_usb_interfaces() {
    let mut h = hid(0x0951, 0x3333, "HyperX", "HyperX Composite", "", 0x06);
    h.serial = None;
    h.usb_parent = Some("1-4".into());
    let usb = vec![UsbDescriptor {
        path: "/sys/bus/usb/devices/1-4".into(),
        usb_parent: "1-4".into(),
        vendor_id: 0x0951,
        product_id: 0x3333,
        manufacturer: Some("HyperX".into()),
        product: Some("HyperX Composite".into()),
        serial: None,
        class_codes: vec![0x03],
    }];
    let devices = discover_from(Ok(vec![h]), Ok(usb), Ok(Vec::new()), &[]).unwrap();
    assert_eq!(devices.len(), 1);
    assert_eq!(devices[0].info.interfaces.len(), 2);
    assert_eq!(devices[0].info.connection_kind, ConnectionKind::Composite);
}

#[test]
fn distinct_serials_do_not_merge_same_model() {
    let hid_list = vec![
        hid(0x0951, 0x1234, "HyperX", "HyperX Test", "ONE", 0x06),
        hid(0x0951, 0x1234, "HyperX", "HyperX Test", "TWO", 0x06),
    ];
    assert_eq!(
        discover_from(Ok(hid_list), Ok(Vec::new()), Ok(Vec::new()), &[])
            .unwrap()
            .len(),
        2
    );
}

#[test]
fn matching_power_supply_adds_safe_battery_status() {
    let hid_list = vec![hid(0x046d, 0xc539, "Logitech", "Gaming Mouse", "BAT123", 0x02)];
    let batteries = vec![BatteryDescriptor {
        path: "/sys/class/power_supply/hid-test-battery".into(),
        name: "hid-test-battery".into(),
        manufacturer: Some("Logitech".into()),
        model_name: Some("Gaming Mouse".into()),
        serial: Some("BAT123".into()),
        capacity: Some(64),
        status: Some("Discharging".into()),
    }];
    let device = discover_from(Ok(hid_list), Ok(Vec::new()), Ok(batteries), &[])
        .unwrap()
        .remove(0);
    assert_eq!(device.info.battery_percent, Some(64));
    assert_eq!(device.info.battery_state.as_deref(), Some("Discharging"));
    assert!(device.info.supports_generic(Capability::BatteryStatus));
}

#[test]
fn unknown_driver_is_diagnostic_only_and_write_protected() {
    let hid_list = vec![hid(0x0951, 0x1234, "HyperX", "HyperX Test", "SERIAL", 0x06)];
    let device = discover_from(Ok(hid_list), Ok(Vec::new()), Ok(Vec::new()), &[])
        .unwrap()
        .remove(0);
    assert_eq!(device.info.support_level, SupportLevel::DiagnosticOnly);
    assert!(ensure_write_allowed(&device.info, Capability::Lighting).is_err());
}

fn haste_registry() -> Vec<NativeModel> {
    vec![
        NativeModel {
            exact_ids: vec![(0x03f0, 0x048e)],
            native_driver: None,
            native_capabilities: vec![Capability::Dpi],
            complete: false,
        },
        NativeModel {
            exact_ids: vec![(0x03f0, 0x028e), (0x03f0, 0x048e)],
            native_driver: Some("hyperx-pulsefire-haste-wireless-v1".into()),
            native_capabilities: vec![Capability::PollingRate, Capability::Dpi],
            complete: true,
        },
        NativeModel {
            exact_ids: vec![(0x03f0, 0x04bf)],
            native_driver: Some("hyperx-pulsefire-saga-pro-v1".into()),
            native_capabilities: vec![Capability::Lighting, Capability::BatteryStatus],
            complete: false,
        },
    ]
}

#[test]
fn exact_native_ids_are_registered() {
    let models = haste_registry();
    assert_eq!(
        driver_for(&models, 0x03f0, 0x028e).unwrap().id,
        "hyperx-pulsefire-haste-wireless-v1"
    );
    assert_eq!(
        driver_for(&models, 0x03f0, 0x04bf).unwrap().id,
        "hyperx-pulsefire-saga-pro-v1"
    );
}

#[test]
fn wired_haste_identity_uses_the_same_driver() {
    assert_eq!(
        driver_for(&haste_registry(), 0x03f0, 0x048e).unwrap().id,
        "hyperx-pulsefire-haste-wireless-v1"
    );
}

#[test]
fn unrelated_hp_device_is_not_promoted() {
    assert!(driver_for(&haste_registry(), 0x03f0, 0xffff).is_none());
}

#[test]
fn native_driver_promotes_exact_identity() {
    let models = haste_registry();
    let hid_list = vec![hid(0x03f0, 0x028e, "HP, Inc", "HyperX Pulsefire Haste Wireless", "P1", 0x02)];
    let device = discover_from(Ok(hid_list), Ok(Vec::new()), Err(DeviceError::Power("x".into())), &models)
        .unwrap()
        .remove(0);
    assert_eq!(device.info.support_level, SupportLevel::FullySupported);
    assert_eq!(device.info.protocol.as_deref(), Some("hyperx-pulsefire-haste-wireless-v1"));
    assert!(device.info.capabilities.contains(&Capability::Dpi));
    assert!(device.info.capabilities.contains(&Capability::Diagnostics));
    assert_eq!(device.info.capabilities.len(), 3);
    assert!(ensure_write_allowed(&device.info, Capability::Dpi).is_ok());
    assert_eq!(device.info.id.0, "03f0:028e:P1");
}

#[test]
fn discovery_fails_only_when_hid_and_usb_both_fail() {
    let err = discover_from(
        Err(DeviceError::Hid("no hidraw".into())),
        Err(DeviceError::Usb("no sysfs".into())),
        Ok(Vec::new()),
        &[],
    )
    .unwrap_err();
    match err {
        DeviceError::Usb(m) => assert_eq!(
            m,
            "all discovery sources failed; HID: HID enumeration failed: no hidraw; USB: USB enumeration failed: no sysfs"
        ),
        other => panic!("unexpected {other:?}"),
    }
    let ok = discover_from(Err(DeviceError::Hid("x".into())), Ok(Vec::new()), Ok(Vec::new()), &[]);
    assert!(ok.unwrap().is_empty());
}

#[test]
fn device_named_by_product_else_ids_and_sorted_by_name() {
    let mut nameless = hid(0x1234, 0xabcd, "", "", "S2", 0x02);
    nameless.manufacturer = None;
    nameless.product = Some("   ".into());
    let named = hid(0x0951, 0x1234, "HyperX", "Alpha", "S1", 0x06);
    let devices = discover_from(Ok(vec![nameless, named]), Ok(Vec::new()), Ok(Vec::new()), &[]).unwrap();
    assert_eq!(devices.len(), 2);
    assert_eq!(devices[0].info.name, "Alpha");
    assert_eq!(devices[1].info.name, "USB 1234:abcd");
    assert_eq!(devices[0].info.id.0, "0951:1234:S1");
}

#[test]
fn doctor_reports_list_each_interface_by_device_and_path() {
    let hid_list = vec![
        hid(0x0951, 0x1234, "HyperX", "HyperX Test", "B", 0x06),
        hid(0x0951, 0x1234, "HyperX", "HyperX Test", "A", 0x02),
        hid(0x0951, 0x1234, "HyperX", "HyperX Test", "A", 0x01),
    ];
    let devices = group_interfaces(
        hid_list.into_iter().map(raw_from_hid).collect(),
        &[],
    );
    let reports = doctor_reports(&devices);
    assert_eq!(reports.len(), 3);
    assert_eq!(reports[0].device_id.0, "0951:1234:A");
    assert_eq!(reports[0].path, "/dev/hidraw-A-1");
    assert_eq!(reports[1].path, "/dev/hidraw-A-2");
    assert_eq!(reports[2].device_id.0, "0951:1234:B");
    assert!(reports.iter().all(|r| r.write_protected));
}

#[test]
fn battery_matches_by_model_name_when_serial_is_absent() {
    let mut devices = discover_from(
        Ok(vec![hid(0x046d, 0xc539, "Logitech", "G Pro Wireless", "X1", 0x02)]),
        Ok(Vec::new()),
        Ok(Vec::new()),
        &[],
    )
    .unwrap();
    let battery = BatteryDescriptor {
        path: "/sys/class/power_supply/b".into(),
        name: "b".into(),
        manufacturer: None,
        model_name: Some("G-PRO wireless gaming mouse".into()),
        serial: Some("  ".into()),
        capacity: Some(12),
        status: None,
    };
    attach_battery_metadata(&mut devices, &[battery.clone(), battery]);
    assert_eq!(devices[0].info.battery_percent, Some(12));
    assert_eq!(
        devices[0]
            .info
            .generic_capabilities
            .iter()
            .filter(|c| **c == Capability::BatteryStatus)
            .count(),
        1
    );
}

#[test]
fn hyperx_filter_keeps_only_hyperx_devices() {
    let devices = discover_from(
        Ok(vec![
            hid(0x046d, 0xc539, "Logitech", "Gaming Mouse", "L", 0x02),
            hid(0x0951, 0x1234, "HyperX", "HyperX Test", "H", 0x06),
        ]),
        Ok(Vec::new()),
        Ok(Vec::new()),
        &[],
    )
    .unwrap();
    let hx = hyperx_devices(devices);
    assert_eq!(hx.len(), 1);
    assert_eq!(hx[0].info.vendor_family, VendorFamily::HyperX);
}

#[test]
fn usb_class_codes_are_sorted_and_distinct() {
    assert_eq!(usb_class_codes(Some(0), &[3, 1, 3, 2]), vec![1, 2, 3]);
    assert_eq!(usb_class_codes(Some(9), &[3, 9]), vec![3, 9]);
    assert_eq!(usb_class_codes(None, &[]), Vec::<u8>::new());
    assert_eq!(usb_class_codes(Some(0), &[]), Vec::<u8>::new());
}

fn usb_named(parent: &str, product_id: u16) -> UsbDescriptor {
    UsbDescriptor {
        path: format!("/sys/bus/usb/devices/{parent}"),
        usb_parent: parent.into(),
        vendor_id: 0x03f0,
        product_id,
        manufacturer: None,
        product: None,
        serial: None,
        class_codes: vec![],
    }
}

#[test]
fn usb_descriptors_sort_by_sysfs_name() {
    let sorted = sort_usb_descriptors(vec![
        usb_named("3-2", 1),
        usb_named("1-4", 2),
        usb_named("3-2", 3),
        usb_named("1-10", 4),
    ]);
    let order: Vec<u16> = sorted.iter().map(|d| d.product_id).collect();
    assert_eq!(order, vec![4, 2, 1, 3]);
}

#[test]
fn batteries_sort_by_name() {
    let battery = |name: &str, capacity: u8| BatteryDescriptor {
        path: format!("/sys/class/power_supply/{name}"),
        name: name.into(),
        manufacturer: None,
        model_name: None,
        serial: None,
        capacity: Some(capacity),
        status: None,
    };
    let sorted = sort_batteries(vec![battery("hidpp_2", 1), battery("BAT0", 2), battery("hidpp_1", 3)]);
    let order: Vec<u8> = sorted.iter().map(|b| b.capacity.unwrap()).collect();
    assert_eq!(order, vec![2, 3, 1]);
}

#[test]
fn sysfs_attribute_values_are_read_trimmed() {
    assert_eq!(read_trimmed_value("  HyperX\n"), Some("HyperX".to_string()));
    assert_eq!(read_trimmed_value(" \n"), None);
    assert_eq!(parse_sysfs_hex_u16("03f0\n"), Some(0x03f0));
    assert_eq!(parse_sysfs_hex_u16("0x0951"), Some(0x0951));
    assert_eq!(parse_sysfs_hex_u16("0x0x1b"), Some(0x1b));
    assert_eq!(parse_sysfs_hex_u16("10000"), None);
    assert_eq!(parse_sysfs_hex_u16("xyz"), None);
    assert_eq!(parse_sysfs_hex_u16(""), None);
    assert_eq!(parse_sysfs_hex_u8("ff"), Some(0xff));
    assert_eq!(parse_sysfs_hex_u8("100"), None);
    assert_eq!(parse_capacity("87\n"), Some(87));
    assert_eq!(parse_capacity("250"), Some(100));
    assert_eq!(parse_capacity("256"), None);
    assert_eq!(parse_capacity("full"), None);
}

#[test]
fn usb_device_entries_skip_interfaces_and_root_hubs() {
    assert!(is_usb_device_entry("1-2"));
    assert!(is_usb_device_entry("3-1.4"));
    assert!(!is_usb_device_entry("1-2:1.0"));
    assert!(!is_usb_device_entry("usb1"));
}

#[test]
fn usb_backend_root_can_be_overridden() {
    assert_eq!(SystemUsbBackend::with_root("/tmp/usb".into()).root.as_deref(), Some("/tmp/usb"));
}

#[test]
fn merged_class_prefers_the_most_specific_interface() {
    assert_eq!(merge_class(&[]), DeviceClass::Other);
    let keyboard = raw_from_hid(hid(0x0951, 0x1234, "HyperX", "HyperX Alloy", "K1", 0x06));
    assert_eq!(merge_class(&[keyboard]), DeviceClass::Keyboard);
}

#[test]
fn hyperx_indices_point_at_hyperx_devices_in_order() {
    let devices = discover_from(
        Ok(vec![
            hid(0x046d, 0x2222, "Logitech", "Gaming Mouse", "LG", 2),
            hid(0x0951, 0x1111, "HyperX", "HyperX Alloy", "HX", 6),
        ]),
        Ok(Vec::new()),
        Ok(Vec::new()),
        &[],
    )
    .unwrap();
    let infos: Vec<_> = devices.into_iter().map(|d| d.info).collect();
    let indices = hyperx_indices(&infos);
    assert_eq!(indices.len(), 1);
    assert_eq!(infos[indices[0]].vendor_family, VendorFamily::HyperX);
}

#[test]
fn every_interface_lands_in_exactly_one_device() {
    let raws = vec![
        raw_from_hid(hid(0x0951, 0x1234, "HyperX", "HyperX Test", "A", 0x06)),
        raw_from_hid(hid(0x0951, 0x1234, "HyperX", "HyperX Test", "B", 0x06)),
        raw_from_hid(hid(0x0951, 0x1234, "HyperX", "HyperX Test", "A", 0x01)),
    ];
    let devices = group_interfaces(raws, &[]);
    assert_eq!(devices.len(), 2);
    let total: usize = devices.iter().map(|d| d.raw_interfaces.len()).sum();
    assert_eq!(total, 3);
    let mut serials: Vec<_> = devices
        .iter()
        .map(|d| (d.info.serial.clone().unwrap(), d.raw_interfaces.len()))
        .collect();
    serials.sort();
    assert_eq!(serials, vec![("A".to_string(), 2), ("B".to_string(), 1)]);
}
