use forgehx::backends::ExternalIdentity;
use forgehx::daemon::{assign_all_owners, haste_battery_state, saga_battery_state, device_node_id, profile_plan, settled_skips, step_label, ProfileStep, assign_capability_owners, backend_error, check_dpi_request, default_profile_root, find_device, firmware_error_code, firmware_validation, health_from_backend_error, lighting_metadata_source, mouse_state_owner, route_lift_off, LightingSource, attach_audio_nodes, audio_health, backend_statuses, daemon_socket_path, firmware_begin_refusal, firmware_identity, gate_request, ipc_frame_length, ipc_frame_prefix, native_lighting_metadata, normalize_device_support, openrgb_detail, openrgb_identity, project_backends_for_protocol, project_device_for_protocol, ratbag_identity, route_lighting_write, route_mouse_request, SAGA_PRO_DRIVER_ID, select_wired_monitor_sink, should_keep_forgehx_mic_source, sort_inventory, source_node_ids, stable_audio_device_id, AudioEndpoint, CommandHeader, CommandKind, LightingRoute, MouseRoute, PULSEFIRE_HASTE_DRIVER_ID};
use forgehx::device::{discover_from, hyperx_devices, DiscoveredDevice, HidDescriptor, NativeModel};
use forgehx::model::{BackendHealth, BackendKind, BackendStatus, Capability, CapabilityOwner, ConnectionKind, DeviceClass, DeviceId, DeviceInfo, IPC_PROTOCOL_VERSION, LightingControllerMetadata, SupportLevel, VendorFamily};
use forgehx::backends::BackendError;
use forgehx::firmware::{FirmwareError, StagedFirmware};
use forgehx::model::{DeviceInterface, DpiConfig, FirmwareValidation, ForgeHxError, InterfaceSource, KeyBinding, MouseConfig};
use forgehx::openrgb::OpenRgbProtocolInfo;
use forgehx::ratbag::RatbagDevice;

fn header(kind: CommandKind) -> CommandHeader {
    CommandHeader {
        kind,
        protocol_version: IPC_PROTOCOL_VERSION,
    }
}

fn node(id: u32, name: &str, kind: &str) -> AudioEndpoint {
    AudioEndpoint {
        id,
        name: name.into(),
        kind: kind.into(),
    }
}

fn sink(id: u32, name: &str) -> AudioEndpoint {
    node(id, name, "sink")
}

fn hid(vendor: u16, product: u16, manufacturer: &str, name: &str, serial: &str, usage: u16) -> HidDescriptor {
    HidDescriptor {
        path: format!("/dev/hidraw-{serial}"),
        vendor_id: vendor,
        product_id: product,
        manufacturer: Some(manufacturer.into()),
        product: Some(name.into()),
        serial: Some(serial.into()),
        interface_number: 0,
        usage_page: 1,
        usage,
        usb_parent: None,
    }
}

fn keyboard(id: &str, serial: Option<&str>, protocol: Option<&str>, caps: Vec<Capability>) -> DeviceInfo {
    DeviceInfo {
        id: DeviceId(id.into()),
        name: "HyperX Keyboard".into(),
        manufacturer: Some("HyperX".into()),
        vendor_id: 0x0951,
        product_id: 0x1234,
        serial: serial.map(|s| s.into()),
        vendor_family: VendorFamily::HyperX,
        device_class: DeviceClass::Keyboard,
        support_level: SupportLevel::DiagnosticOnly,
        connection_kind: ConnectionKind::Hid,
        interfaces: vec![],
        capabilities: caps,
        generic_capabilities: vec![],
        capability_owners: vec![],
        battery_percent: None,
        battery_state: None,
        protocol: protocol.map(|s| s.into()),
    }
}

fn assign(info: &mut DeviceInfo, sources: &[u32], linux: BackendHealth, openrgb: BackendHealth, rgb: &[ExternalIdentity]) {
    assign_capability_owners(
        info,
        sources,
        &linux,
        &openrgb,
        rgb,
        &BackendHealth::Unavailable,
        &[],
        &None,
    );
}

fn audio_devices(nodes: &[AudioEndpoint]) -> Vec<DiscoveredDevice> {
    let mut devices = Vec::new();
    attach_audio_nodes(&mut devices, nodes);
    let sources: Vec<u32> = nodes.iter().filter(|n| n.kind == "source").map(|n| n.id).collect();
    for device in devices.iter_mut() {
        assign(&mut device.info, &sources, BackendHealth::Ready, BackendHealth::Unavailable, &[]);
        normalize_device_support(&mut device.info, false);
    }
    devices
}

#[test]
fn legacy_inventory_commands_remain_v2_compatible() {
    let command = header(CommandKind::ListAllDevices);
    assert_eq!(command.minimum_protocol_version(), 2);
    assert_eq!(command.with_protocol_version(2).protocol_version(), 2);
}

#[test]
fn backend_control_commands_require_v3() {
    assert_eq!(header(CommandKind::BackendEnsure).minimum_protocol_version(), 3);
}

#[test]
fn profile_schema_v2_save_requires_v3() {
    assert_eq!(header(CommandKind::ProfileSave).minimum_protocol_version(), 3);
}

#[test]
fn microphone_dsp_commands_require_v4() {
    assert_eq!(header(CommandKind::MicDspBypass).minimum_protocol_version(), 4);
}

#[test]
fn microphone_monitor_command_requires_v11() {
    let command = header(CommandKind::MicMonitorSet);
    assert_eq!(command.minimum_protocol_version(), 11);
    assert_eq!(command.with_protocol_version(10).protocol_version(), 10);
}

#[test]
fn mouse_capabilities_command_requires_v5() {
    assert_eq!(header(CommandKind::MouseCapabilities).minimum_protocol_version(), 5);
}

#[test]
fn lift_off_distance_command_requires_v10() {
    assert_eq!(header(CommandKind::SetLiftOffDistance).minimum_protocol_version(), 10);
}

#[test]
fn microphone_firmware_commands_require_v6() {
    let command = header(CommandKind::MicFirmwareGet);
    assert_eq!(command.minimum_protocol_version(), 6);
    assert_eq!(command.protocol_version(), IPC_PROTOCOL_VERSION);
}

#[test]
fn ping_accepts_mismatched_version_for_negotiation() {
    let reply = gate_request(&CommandHeader {
        kind: CommandKind::Ping,
        protocol_version: 99,
    });
    assert_eq!(reply.unwrap(), 99);
}

#[test]
fn v2_inventory_command_is_accepted() {
    assert!(gate_request(&CommandHeader {
        kind: CommandKind::ListAllDevices,
        protocol_version: 2,
    })
    .is_ok());
}

#[test]
fn v2_cannot_use_v3_backend_commands() {
    let reply = gate_request(&CommandHeader {
        kind: CommandKind::BackendStatus,
        protocol_version: 2,
    });
    let error = reply.unwrap_err();
    assert_eq!(error.code, "protocol_version");
    assert_eq!(
        error.message,
        "protocol version mismatch: daemon=12, client=2, supported=2..=12, command_requires=3"
    );
}

#[test]
fn forgehx_mic_identity_survives_missing_raw_source() {
    let device = DeviceInfo {
        id: DeviceId("03f0:0fbf:1H552803ZH".into()),
        name: "HyperX SoloCast 2".into(),
        manufacturer: Some("HP, Inc".into()),
        vendor_id: 0x03f0,
        product_id: 0x0fbf,
        serial: Some("1H552803ZH".into()),
        vendor_family: VendorFamily::HyperX,
        device_class: DeviceClass::Microphone,
        support_level: SupportLevel::PartiallySupported,
        connection_kind: ConnectionKind::Usb,
        interfaces: Vec::new(),
        capabilities: vec![Capability::Diagnostics],
        generic_capabilities: Vec::new(),
        capability_owners: Vec::new(),
        battery_percent: None,
        battery_state: None,
        protocol: None,
    };
    assert!(should_keep_forgehx_mic_source(&device));
    assert!(device.selected_owner(Capability::MicDsp).is_none());
}

#[test]
fn stable_audio_device_id_is_independent_of_pipewire_node_number() {
    let name = "alsa_input.usb-HP__Inc_HyperX_SoloCast_2_SERIAL-00.analog-stereo";
    assert_eq!(stable_audio_device_id(name), stable_audio_device_id(name));
    assert_ne!(
        stable_audio_device_id(name),
        stable_audio_device_id("alsa_input.usb-Logitech_Brio_100_OTHER-02.mono-fallback")
    );
    assert!(stable_audio_device_id(name).0.starts_with("audio-name:"));
}

#[test]
fn wired_monitor_never_selects_bluetooth() {
    let nodes = vec![
        sink(10, "bluez_output.11_22_33.a2dp-sink"),
        sink(11, "Bluetooth Headphones"),
        sink(12, "alsa_output.pci-0000_00_1f.3.analog-stereo"),
    ];
    let selected = select_wired_monitor_sink(&nodes).unwrap();
    assert_eq!(nodes[selected].id, 12);
}

#[test]
fn wired_monitor_prefers_explicit_headphone_sink_over_generic_analog() {
    let nodes = vec![
        sink(20, "alsa_output.pci-0000_00_1f.3.analog-stereo"),
        sink(21, "alsa_output.usb-DAC.Headphones"),
    ];
    let selected = select_wired_monitor_sink(&nodes).unwrap();
    assert_eq!(nodes[selected].id, 21);
}

#[test]
fn wired_monitor_rejects_hdmi_only_configuration() {
    let nodes = vec![
        sink(30, "alsa_output.pci-0000_03_00.1.hdmi-stereo"),
        sink(31, "bluez_output.headset"),
    ];
    assert!(select_wired_monitor_sink(&nodes).is_none());
}

#[test]
fn hyperx_and_all_device_views_are_separate() {
    let all = discover_from(
        Ok(vec![
            hid(0x0951, 0x1111, "HyperX", "HyperX Alloy", "HX", 6),
            hid(0x046d, 0x2222, "Logitech", "Gaming Mouse", "LG", 2),
        ]),
        Ok(Vec::new()),
        Ok(Vec::new()),
        &[],
    )
    .unwrap();
    assert_eq!(all.len(), 2);
    assert_eq!(hyperx_devices(all).len(), 1);
}

#[test]
fn generic_audio_gets_linux_standard_owner() {
    let devices = audio_devices(&[node(77, "Logitech USB Headset", "sink")]);
    let device = &devices[0].info;
    assert_eq!(
        device.selected_owner(Capability::Volume).unwrap().backend,
        BackendKind::LinuxStandard
    );
    assert!(device.supports(Capability::Eq));
}

#[test]
fn owner_selection_never_promotes_diagnostic_over_writable_linux() {
    let mut info = DeviceInfo {
        id: DeviceId("x".into()),
        name: "Headset".into(),
        manufacturer: None,
        vendor_id: 0,
        product_id: 0,
        serial: None,
        vendor_family: VendorFamily::Unknown,
        device_class: DeviceClass::Headset,
        support_level: SupportLevel::DiagnosticOnly,
        connection_kind: ConnectionKind::Audio,
        interfaces: vec![],
        capabilities: vec![Capability::Diagnostics],
        generic_capabilities: vec![Capability::Volume],
        capability_owners: vec![],
        battery_percent: None,
        battery_state: None,
        protocol: None,
    };
    assign(&mut info, &[], BackendHealth::Ready, BackendHealth::Unavailable, &[]);
    assert_eq!(
        info.selected_owner(Capability::Volume).unwrap().backend,
        BackendKind::LinuxStandard
    );
}

#[test]
fn native_lighting_owner_beats_openrgb_fallback() {
    let mut info = keyboard(
        "hx",
        Some("ABC"),
        Some("verified-test"),
        vec![Capability::Diagnostics, Capability::Lighting],
    );
    let rgb = vec![ExternalIdentity {
        id: "3".into(),
        name: "HyperX Keyboard".into(),
        vendor: Some("HyperX".into()),
        serial: Some("ABC".into()),
        location: None,
        vendor_id: Some(0x0951),
        product_id: Some(0x1234),
    }];
    assign(&mut info, &[], BackendHealth::Ready, BackendHealth::Ready, &rgb);
    assert_eq!(
        info.selected_owner(Capability::Lighting).unwrap().backend,
        BackendKind::ForgeHxNative
    );
}

#[test]
fn unavailable_openrgb_never_owns_lighting() {
    let mut info = keyboard("hx", None, None, vec![Capability::Diagnostics]);
    let rgb = vec![ExternalIdentity {
        id: "3".into(),
        name: "HyperX Keyboard".into(),
        vendor: Some("HyperX".into()),
        serial: None,
        location: None,
        vendor_id: Some(0x0951),
        product_id: Some(0x1234),
    }];
    assign(&mut info, &[], BackendHealth::Ready, BackendHealth::Unavailable, &rgb);
    assert!(info.selected_owner(Capability::Lighting).is_none());
}

#[test]
fn exact_legacy_keyboard_without_native_driver_does_not_gain_native_lighting() {
    let mut devices = discover_from(
        Ok(vec![hid(0x03f0, 0x0591, "HP, Inc", "HyperX Alloy Origins", "KBD1", 6)]),
        Ok(Vec::new()),
        Ok(Vec::new()),
        &[],
    )
    .unwrap();
    let device = &mut devices[0].info;
    assign(device, &[], BackendHealth::Ready, BackendHealth::Unavailable, &[]);
    assert_eq!(device.device_class, DeviceClass::Keyboard);
    assert!(device.protocol.is_none());
    assert!(device.selected_owner(Capability::Lighting).is_none());
}

#[test]
fn deterministic_openrgb_keyboard_match_owns_lighting() {
    let mut info = DeviceInfo {
        id: DeviceId("kbd".into()),
        name: "HyperX Alloy Origins".into(),
        manufacturer: Some("HP, Inc".into()),
        vendor_id: 0x03f0,
        product_id: 0x0591,
        serial: Some("KBD2".into()),
        ..keyboard("kbd", None, None, vec![Capability::Diagnostics])
    };
    let rgb = vec![ExternalIdentity {
        id: "openrgb:alloy-origins".into(),
        name: "HyperX Alloy Origins".into(),
        vendor: Some("HyperX".into()),
        serial: Some("KBD2".into()),
        location: None,
        vendor_id: Some(0x03f0),
        product_id: Some(0x0591),
    }];
    assign(&mut info, &[], BackendHealth::Ready, BackendHealth::Ready, &rgb);
    let owner = info.selected_owner(Capability::Lighting).expect("OpenRGB lighting owner");
    assert_eq!(owner.backend, BackendKind::OpenRgb);
    assert!(owner.writable);
    assert!(info.protocol.is_none());
}

#[test]
fn hyperx_microphone_gets_dsp_owner_but_logitech_does_not() {
    let devices = audio_devices(&[
        node(81, "HyperX QuadCast S Microphone", "source"),
        node(82, "Logitech Blue Yeti Microphone", "source"),
    ]);
    let hyperx = devices.iter().find(|d| d.info.name.contains("HyperX")).unwrap();
    let logitech = devices.iter().find(|d| d.info.name.contains("Logitech")).unwrap();
    assert_eq!(
        hyperx.info.selected_owner(Capability::MicDsp).unwrap().backend,
        BackendKind::ForgeHxDsp
    );
    assert!(logitech.info.selected_owner(Capability::MicDsp).is_none());
}

#[test]
fn v3_inventory_projection_hides_v4_mic_dsp_values() {
    let devices = audio_devices(&[node(83, "HyperX SoloCast Microphone", "source")]);
    let projected: Vec<DeviceInfo> = devices
        .into_iter()
        .map(|d| project_device_for_protocol(d.info, 3, false, false))
        .collect();
    assert!(projected.iter().all(|d| !d.capabilities.contains(&Capability::MicDsp)));
    assert!(projected
        .iter()
        .all(|d| !d.generic_capabilities.contains(&Capability::MicDsp)));
    assert!(projected
        .iter()
        .flat_map(|d| &d.capability_owners)
        .all(|o| o.capability != Capability::MicDsp && o.backend != BackendKind::ForgeHxDsp));
}

#[test]
fn v3_backend_status_projection_hides_v4_dsp_backend() {
    let statuses = vec![
        BackendStatus {
            backend: BackendKind::ForgeHxDsp,
            health: BackendHealth::Ready,
            detail: None,
        },
        BackendStatus {
            backend: BackendKind::LinuxStandard,
            health: BackendHealth::Ready,
            detail: None,
        },
    ];
    let backends = project_backends_for_protocol(&statuses, 3);
    assert_eq!(backends.len(), 1);
    assert!(backends.iter().all(|s| s.backend != BackendKind::ForgeHxDsp));
    assert_eq!(project_backends_for_protocol(&statuses, 4).len(), 2);
}

#[test]
fn audio_node_attaches_to_matching_device_as_composite_interface() {
    let mut devices = discover_from(
        Ok(vec![hid(0x03f0, 0x0fbf, "HP, Inc", "HyperX SoloCast 2", "1H55", 1)]),
        Ok(Vec::new()),
        Ok(Vec::new()),
        &[],
    )
    .unwrap();
    attach_audio_nodes(
        &mut devices,
        &[node(68, "HyperX SoloCast 2 Analog Stereo", "source"), node(70, "Other Speaker", "sink")],
    );
    assert_eq!(devices.len(), 2);
    let mic = &devices[0];
    assert_eq!(mic.info.connection_kind, ConnectionKind::Composite);
    assert_eq!(mic.info.interfaces.len(), 2);
    assert_eq!(mic.info.interfaces[1].path, "pipewire:68");
    assert_eq!(mic.info.interfaces[1].audio_node_id, Some(68));
    assert!(mic.info.generic_capabilities.contains(&Capability::Microphone));
    assert_eq!(mic.raw_interfaces[1].usb_class_codes, vec![0x01]);
    let speaker = &devices[1].info;
    assert_eq!(speaker.device_class, DeviceClass::Headset);
    assert_eq!(speaker.support_level, SupportLevel::GenericControls);
    assert_eq!(speaker.id, stable_audio_device_id("Other Speaker"));
    assert!(speaker.generic_capabilities.contains(&Capability::Eq));
}

#[test]
fn refresh_identities_and_statuses() {
    let meta = LightingControllerMetadata {
        backend_device_id: "2".into(),
        name: "HyperX Alloy".into(),
        vendor: "".into(),
        description: "d".into(),
        version: "v".into(),
        serial: "S1".into(),
        location: "".into(),
        led_count: 4,
        modes: vec![],
        zones: vec![],
        protocol_version: 5,
    };
    let id = openrgb_identity(&meta);
    assert_eq!(id.id, "2");
    assert_eq!(id.vendor, None);
    assert_eq!(id.serial.as_deref(), Some("S1"));
    let mouse = RatbagDevice {
        id: "m".into(),
        name: "Logitech G502".into(),
        model: Some("usb:046d:c08b:0".into()),
    };
    let rid = ratbag_identity(&mouse);
    assert_eq!(rid.vendor.as_deref(), Some("Logitech"));
    assert_eq!(rid.vendor_id, Some(0x046d));
    assert_eq!(rid.product_id, Some(0xc08b));
    let nodes = vec![node(1, "a", "sink"), node(2, "b", "source"), node(3, "c", "source")];
    assert_eq!(source_node_ids(&nodes), vec![2, 3]);
    assert_eq!(audio_health(&Err("no wpctl".into())), BackendHealth::BackendError("no wpctl".into()));
    let detail = openrgb_detail(&Some(Ok(OpenRgbProtocolInfo { server_version: 6, negotiated_version: 5 })));
    assert_eq!(detail, "OpenRGB SDK 127.0.0.1:6742 \u{2022} server v6 \u{2022} negotiated v5");
    assert_eq!(openrgb_detail(&None), "OpenRGB compatibility backend disabled");
    let statuses = backend_statuses(&BackendHealth::Ready, &BackendHealth::Unavailable, &detail, &BackendHealth::Ready);
    assert_eq!(statuses.len(), 6);
    assert_eq!(statuses[3].backend, BackendKind::OpenRgb);
    assert_eq!(statuses[3].health, BackendHealth::Unavailable);
    assert_eq!(statuses[3].detail.as_deref(), Some(detail.as_str()));
}

#[test]
fn inventory_sorts_by_name_then_id() {
    let a = DeviceInfo { id: DeviceId("b".into()), name: "Same".into(), ..keyboard("x", None, None, vec![]) };
    let b = DeviceInfo { id: DeviceId("a".into()), name: "Same".into(), ..keyboard("x", None, None, vec![]) };
    let c = DeviceInfo { id: DeviceId("z".into()), name: "Alpha".into(), ..keyboard("x", None, None, vec![]) };
    let sorted = sort_inventory(vec![a, b, c]);
    let ids: Vec<&str> = sorted.iter().map(|d| d.id.0.as_str()).collect();
    assert_eq!(ids, vec!["z", "a", "b"]);
}

#[test]
fn mouse_requests_route_by_owner() {
    let owner = |backend, id: Option<&str>, writable| CapabilityOwner {
        capability: Capability::Dpi,
        backend,
        backend_device_id: id.map(|s| s.into()),
        verified: true,
        writable,
        detail: None,
    };
    let haste = keyboard("m", None, Some(PULSEFIRE_HASTE_DRIVER_ID), vec![]);
    let other = keyboard("m", None, Some("other"), vec![]);
    assert!(matches!(
        route_mouse_request(&haste, &owner(BackendKind::Ratbag, Some("r1"), true), Capability::Dpi, "missing", "nope"),
        Ok(MouseRoute::Ratbag(id)) if id == "r1"
    ));
    let e = route_mouse_request(&haste, &owner(BackendKind::Ratbag, None, true), Capability::Dpi, "missing ratbag mapping", "nope").unwrap_err();
    assert_eq!((e.code.as_str(), e.message.as_str()), ("backend_protocol", "missing ratbag mapping"));
    assert!(matches!(
        route_mouse_request(&haste, &owner(BackendKind::ForgeHxNative, None, true), Capability::Dpi, "m", "n"),
        Ok(MouseRoute::NativeHaste)
    ));
    let e = route_mouse_request(&other, &owner(BackendKind::ForgeHxNative, None, true), Capability::Dpi, "m", "native DPI writer is not implemented for this driver").unwrap_err();
    assert_eq!(e.code, "protocol_unimplemented");
    let e = route_mouse_request(&haste, &owner(BackendKind::OpenRgb, None, true), Capability::Dpi, "m", "n").unwrap_err();
    assert_eq!(e.code, "unsupported");
    assert_eq!(
        route_lighting_write(&haste, &owner(BackendKind::OpenRgb, Some("7"), true)).unwrap(),
        LightingRoute::OpenRgb(7)
    );
    let e = route_lighting_write(&haste, &owner(BackendKind::OpenRgb, Some("x7"), true)).unwrap_err();
    assert_eq!(e.message, "invalid OpenRGB controller mapping");
    let e = route_lighting_write(&haste, &owner(BackendKind::OpenRgb, Some("7"), false)).unwrap_err();
    assert_eq!(e.message, "selected lighting backend is read-only");
}

#[test]
fn haste_describes_its_single_logo_led() {
    let mut haste = keyboard("m", Some("SN"), Some(PULSEFIRE_HASTE_DRIVER_ID), vec![]);
    let meta = native_lighting_metadata(&haste).unwrap();
    assert_eq!(meta.location, "native HID interface 2");
    assert_eq!(meta.serial, "SN");
    assert_eq!(meta.modes.len(), 3);
    assert_eq!(meta.modes[2].name, "Spectrum");
    haste.protocol = Some("other".into());
    assert!(native_lighting_metadata(&haste).is_none());
}

#[test]
fn firmware_requests_are_refused_without_an_update_transport() {
    let mic = DeviceInfo {
        id: DeviceId("mic".into()),
        name: "HyperX SoloCast 2".into(),
        vendor_id: 0x03f0,
        product_id: 0x0fbf,
        device_class: DeviceClass::Microphone,
        ..keyboard("mic", None, None, vec![])
    };
    let identity = firmware_identity(&mic).unwrap();
    assert_eq!(identity.model, "HyperX SoloCast 2");
    let refusal = firmware_begin_refusal(&mic, &[], &[], "fw-1");
    assert_eq!(refusal.code, "firmware_update_unavailable");
    assert_eq!(
        refusal.message,
        "HyperX SoloCast 2 firmware support is inventory-only; no verified update transport is enabled"
    );
    let plain = keyboard("k", None, None, vec![]);
    assert_eq!(firmware_identity(&plain).unwrap_err().code, "firmware_unsupported");
}

#[test]
fn daemon_socket_lives_in_runtime_dir() {
    assert_eq!(daemon_socket_path(Some("/run/user/1".into()), None), "/run/user/1/forgehx/forgehx.sock");
    assert_eq!(daemon_socket_path(None, Some("ann".into())), "/tmp/forgehx-ann/forgehx.sock");
}

#[test]
fn ipc_frames_carry_a_big_endian_length() {
    assert_eq!(ipc_frame_prefix(0x0102_0304).unwrap(), [1, 2, 3, 4]);
    assert_eq!(ipc_frame_length([0, 0, 1, 0]).unwrap(), 256);
    assert_eq!(ipc_frame_length([0, 0x40, 0, 0]).unwrap(), 4 * 1024 * 1024);
    assert_eq!(
        ipc_frame_length([0, 0x40, 0, 1]).unwrap_err(),
        "invalid ForgeHX frame length"
    );
    assert_eq!(ipc_frame_length([0, 0, 0, 0]).unwrap_err(), "invalid ForgeHX frame length");
    let prefix = ipc_frame_prefix(1234).unwrap();
    assert_eq!(ipc_frame_length(prefix).unwrap(), 1234);
}

fn mouse_registry() -> Vec<NativeModel> {
    vec![
        NativeModel {
            exact_ids: vec![(0x03f0, 0x028e), (0x03f0, 0x048e)],
            native_driver: Some(PULSEFIRE_HASTE_DRIVER_ID.into()),
            native_capabilities: vec![
                Capability::Lighting,
                Capability::Dpi,
                Capability::PollingRate,
                Capability::Profiles,
                Capability::Bindings,
                Capability::MacroAssignments,
                Capability::BatteryStatus,
            ],
            complete: true,
        },
        NativeModel {
            exact_ids: vec![(0x03f0, 0x04bf)],
            native_driver: Some(SAGA_PRO_DRIVER_ID.into()),
            native_capabilities: vec![Capability::Lighting, Capability::BatteryStatus],
            complete: false,
        },
    ]
}

/// The inventory a refresh builds with the external backends switched off.
fn refresh(hid: Vec<HidDescriptor>, nodes: &[AudioEndpoint], complete_microphone: bool) -> Vec<DeviceInfo> {
    let mut discovered = discover_from(Ok(hid), Ok(vec![]), Ok(vec![]), &mouse_registry()).unwrap();
    attach_audio_nodes(&mut discovered, nodes);
    let sources = source_node_ids(nodes);
    for device in discovered.iter_mut() {
        assign_capability_owners(
            &mut device.info,
            &sources,
            &BackendHealth::Ready,
            &BackendHealth::Unavailable,
            &[],
            &BackendHealth::Unavailable,
            &[],
            &None,
        );
        normalize_device_support(&mut device.info, complete_microphone);
    }
    sort_inventory(discovered.into_iter().map(|device| device.info).collect())
}

fn mouse_hid(path: &str, product_id: u16, product: &str, parent: &str) -> HidDescriptor {
    HidDescriptor {
        path: path.into(),
        vendor_id: 0x03f0,
        product_id,
        manufacturer: Some("HP, Inc".into()),
        product: Some(product.into()),
        serial: None,
        interface_number: 2,
        usage_page: 0xff00,
        usage: 1,
        usb_parent: Some(parent.into()),
    }
}

#[test]
fn pulsefire_haste_wireless_is_promoted_with_native_mouse_owners() {
    let devices = refresh(
        vec![mouse_hid("/dev/hidraw2", 0x028e, "HyperX Pulsefire Haste Wireless", "1-2")],
        &[],
        false,
    );
    let device = &devices[0];
    assert_eq!(device.support_level, SupportLevel::FullySupported);
    assert_eq!(device.protocol.as_deref(), Some(PULSEFIRE_HASTE_DRIVER_ID));
    for cap in [
        Capability::Lighting,
        Capability::Dpi,
        Capability::PollingRate,
        Capability::Profiles,
        Capability::Bindings,
        Capability::MacroAssignments,
        Capability::BatteryStatus,
    ] {
        assert_eq!(device.selected_owner(cap).unwrap().backend, BackendKind::ForgeHxNative);
    }
    assert!(!device.selected_owner(Capability::BatteryStatus).unwrap().writable);
}

#[test]
fn pulsefire_haste_wireless_wired_transport_uses_same_native_driver() {
    let devices = refresh(
        vec![mouse_hid("/dev/hidraw7", 0x048e, "HyperX Pulsefire Haste Wireless", "7-4")],
        &[],
        false,
    );
    let device = &devices[0];
    assert_eq!(device.protocol.as_deref(), Some(PULSEFIRE_HASTE_DRIVER_ID));
    assert_eq!(device.support_level, SupportLevel::FullySupported);
}

#[test]
fn pulsefire_haste_complete_driver_stays_full_with_compatibility_owners() {
    let mut devices = refresh(
        vec![mouse_hid("/dev/hidraw7", 0x048e, "HyperX Pulsefire Haste Wireless", "7-4")],
        &[],
        false,
    );
    let device = &mut devices[0];
    device.generic_capabilities.push(Capability::Audio);
    device.capability_owners.push(CapabilityOwner {
        capability: Capability::Audio,
        backend: BackendKind::LinuxStandard,
        backend_device_id: Some("compat".into()),
        verified: true,
        writable: true,
        detail: Some("compatibility owner".into()),
    });
    normalize_device_support(device, false);
    assert_eq!(device.support_level, SupportLevel::FullySupported);
}

#[test]
fn solocast_2_exact_composite_stack_is_fully_supported() {
    let devices = refresh(
        vec![HidDescriptor {
            path: "/dev/hidraw1".into(),
            vendor_id: 0x03f0,
            product_id: 0x0fbf,
            manufacturer: Some("HP, Inc".into()),
            product: Some("HyperX SoloCast 2".into()),
            serial: Some("1H552803ZH".into()),
            interface_number: 2,
            usage_page: 0xff90,
            usage: 1,
            usb_parent: Some("3-1".into()),
        }],
        &[node(68, "HyperX SoloCast 2 Analog Stereo", "source")],
        true,
    );
    let device = devices
        .iter()
        .find(|device| device.vendor_id == 0x03f0 && device.product_id == 0x0fbf)
        .unwrap();
    assert_eq!(device.support_level, SupportLevel::FullySupported);
    assert_eq!(device.selected_owner(Capability::MicDsp).unwrap().backend, BackendKind::ForgeHxDsp);
    assert_eq!(
        device.selected_owner(Capability::Microphone).unwrap().backend,
        BackendKind::LinuxStandard
    );
    assert_eq!(
        device.selected_owner(Capability::MicFirmwareInventory).unwrap().backend,
        BackendKind::ForgeHxNative
    );
    assert!(
        device.protocol.is_none(),
        "full ForgeHX support must not imply undocumented raw-HID authority"
    );
}

#[test]
fn saga_pro_exact_match_owns_only_verified_native_capabilities() {
    let devices = refresh(
        vec![mouse_hid("/dev/hidraw-saga", 0x04bf, "HyperX Pulsefire Saga Pro", "1-3")],
        &[],
        false,
    );
    let device = &devices[0];
    assert_eq!(device.protocol.as_deref(), Some(SAGA_PRO_DRIVER_ID));
    assert_eq!(device.selected_owner(Capability::Lighting).unwrap().backend, BackendKind::ForgeHxNative);
    assert_eq!(
        device.selected_owner(Capability::BatteryStatus).unwrap().backend,
        BackendKind::ForgeHxNative
    );
    assert!(device.selected_owner(Capability::Dpi).is_none());
    assert!(device.selected_owner(Capability::PollingRate).is_none());
}

fn owned_by(capability: Capability, backend: BackendKind, id: Option<&str>) -> CapabilityOwner {
    CapabilityOwner {
        capability,
        backend,
        backend_device_id: id.map(|s| s.into()),
        verified: true,
        writable: true,
        detail: None,
    }
}

#[test]
fn mouse_state_comes_from_the_first_mouse_owner() {
    let mut device = keyboard("m", None, None, vec![]);
    assert_eq!(
        mouse_state_owner(&device).unwrap_err(),
        ForgeHxError::Unsupported(Capability::Profiles)
    );
    device.capability_owners.push(owned_by(Capability::Profiles, BackendKind::Ratbag, Some("p")));
    assert_eq!(mouse_state_owner(&device).unwrap().capability, Capability::Profiles);
    device.capability_owners.push(owned_by(Capability::PollingRate, BackendKind::Ratbag, Some("r")));
    assert_eq!(mouse_state_owner(&device).unwrap().capability, Capability::PollingRate);
    device.capability_owners.push(owned_by(Capability::Dpi, BackendKind::Ratbag, Some("d")));
    assert_eq!(mouse_state_owner(&device).unwrap().capability, Capability::Dpi);
}

#[test]
fn dpi_requests_need_an_active_stage_among_the_stages() {
    assert!(check_dpi_request(2, 1).is_ok());
    let refused = check_dpi_request(0, 0).unwrap_err();
    assert_eq!((refused.code.as_str(), refused.message.as_str()), ("profile", "invalid DPI stages"));
    assert!(check_dpi_request(2, 2).is_err());
}

#[test]
fn lift_off_needs_the_native_haste_driver() {
    let haste = keyboard("h", None, Some(PULSEFIRE_HASTE_DRIVER_ID), vec![]);
    let native = owned_by(Capability::Dpi, BackendKind::ForgeHxNative, None);
    assert!(route_lift_off(&haste, &native).is_ok());
    let ratbag = owned_by(Capability::Dpi, BackendKind::Ratbag, Some("0"));
    let refused = route_lift_off(&haste, &ratbag).unwrap_err();
    assert_eq!(refused.code, "unsupported");
    assert_eq!(refused.message, "lift-off distance requires the ForgeHX Native Haste driver");
    let saga = keyboard("s", None, Some(SAGA_PRO_DRIVER_ID), vec![]);
    let refused = route_lift_off(&saga, &native).unwrap_err();
    assert_eq!(refused.code, "protocol_unimplemented");
}

#[test]
fn lighting_metadata_comes_from_the_owner() {
    let device = keyboard("k", None, None, vec![]);
    match lighting_metadata_source(&device, &owned_by(Capability::Lighting, BackendKind::OpenRgb, Some("3"))) {
        Ok(LightingSource::OpenRgb(index)) => assert_eq!(index, 3),
        _ => panic!("expected an OpenRGB controller"),
    }
    let bad = lighting_metadata_source(&device, &owned_by(Capability::Lighting, BackendKind::OpenRgb, Some("x")));
    assert_eq!(bad.err().unwrap().message, "invalid OpenRGB controller mapping");
    match lighting_metadata_source(&device, &owned_by(Capability::Lighting, BackendKind::ForgeHxNative, None)) {
        Ok(LightingSource::Native(metadata)) => assert!(metadata.is_none()),
        _ => panic!("expected native lighting"),
    }
    let linux = lighting_metadata_source(&device, &owned_by(Capability::Lighting, BackendKind::LinuxStandard, None));
    assert_eq!(linux.err().unwrap().code, "unsupported");
}

fn staged(id: &str, device: &str) -> StagedFirmware {
    StagedFirmware {
        staged_id: id.into(),
        device_id: DeviceId(device.into()),
        original_filename: "fw.bin".into(),
        path: format!("/tmp/{id}.img"),
        sha256: "ab".into(),
        size_bytes: 4,
    }
}

#[test]
fn firmware_validation_reports_the_staged_package() {
    let mic = DeviceInfo {
        name: "HyperX SoloCast 2".into(),
        vendor_id: 0x03f0,
        product_id: 0x0fbf,
        device_class: DeviceClass::Microphone,
        ..keyboard("mic", None, None, vec![])
    };
    let packages = vec![staged("fw-1", "mic"), staged("fw-2", "other")];
    let report = firmware_validation(&mic, &packages, "fw-1").unwrap();
    assert_eq!(report.staged_id, "fw-1");
    assert_eq!(report.size_bytes, 4);
    assert_eq!(report.validation, FirmwareValidation::VersionUnknown);
    assert_eq!(report.claimed_model.as_deref(), Some("HyperX SoloCast 2"));
    let mismatch = firmware_validation(&mic, &packages, "fw-2").unwrap_err();
    assert_eq!(mismatch.code, "firmware_target_mismatch");
    let missing = firmware_validation(&mic, &packages, "fw-3").unwrap_err();
    assert_eq!(missing.code, "firmware_stage_missing");
    let plain = keyboard("k", None, None, vec![]);
    assert_eq!(firmware_validation(&plain, &packages, "fw-1").unwrap_err().code, "firmware_unsupported");
}

#[test]
fn backend_errors_map_to_health_and_daemon_errors() {
    assert_eq!(health_from_backend_error(&BackendError::Unavailable("x".into())), BackendHealth::Unavailable);
    assert_eq!(health_from_backend_error(&BackendError::Protocol("x".into())), BackendHealth::ProtocolMismatch);
    assert_eq!(
        health_from_backend_error(&BackendError::Ambiguous("x".into())),
        BackendHealth::AmbiguousDeviceMatch
    );
    assert_eq!(
        health_from_backend_error(&BackendError::Io("broken pipe".into())),
        BackendHealth::BackendError("broken pipe".into())
    );
    assert_eq!(backend_error(BackendError::Invalid("bad".into())), ForgeHxError::BackendProtocol("bad".into()));
    assert_eq!(backend_error(BackendError::Io("eof".into())), ForgeHxError::Io("eof".into()));
    assert_eq!(
        backend_error(BackendError::Unavailable("off".into())),
        ForgeHxError::BackendUnavailable("off".into())
    );
}

#[test]
fn firmware_errors_have_reply_codes() {
    assert_eq!(firmware_error_code(&FirmwareError::AdapterNotFound), "firmware_unsupported");
    assert_eq!(firmware_error_code(&FirmwareError::UpdateNotEnabled), "firmware_update_unavailable");
    assert_eq!(firmware_error_code(&FirmwareError::NotRegularFile("x".into())), "firmware_source_invalid");
    assert_eq!(firmware_error_code(&FirmwareError::InvalidTransition("x".into())), "firmware_state");
    assert_eq!(firmware_error_code(&FirmwareError::Journal("x".into())), "firmware_journal");
    assert_eq!(firmware_error_code(&FirmwareError::Io("x".into())), "firmware_io");
}

#[test]
fn profile_root_follows_xdg_then_home() {
    assert_eq!(default_profile_root(Some("/cfg".into()), Some("/home/a".into())), "/cfg/forgehx/profiles");
    assert_eq!(default_profile_root(None, Some("/home/a".into())), "/home/a/.config/forgehx/profiles");
    assert_eq!(default_profile_root(None, None), ".forgehx/profiles");
}

#[test]
fn devices_are_found_by_id() {
    let devices = vec![keyboard("a", None, None, vec![]), keyboard("b", None, None, vec![])];
    assert_eq!(find_device(&devices, &DeviceId("b".into())).unwrap(), 1);
    assert_eq!(
        find_device(&devices, &DeviceId("c".into())).unwrap_err(),
        ForgeHxError::DeviceNotFound(DeviceId("c".into()))
    );
}

#[test]
fn all_owners_are_assigned_device_by_device() {
    let mut devices = audio_devices(&[node(77, "Logitech USB Headset", "sink")]);
    devices[0].info.capability_owners.clear();
    assign_all_owners(
        &mut devices,
        &[],
        &BackendHealth::Ready,
        &BackendHealth::Unavailable,
        &[],
        &BackendHealth::Unavailable,
        &[],
        &[None],
    );
    assert_eq!(
        devices[0].info.selected_owner(Capability::Volume).unwrap().backend,
        BackendKind::LinuxStandard
    );
}

fn audio_interface(node: u32) -> DeviceInterface {
    DeviceInterface {
        source: InterfaceSource::Audio,
        path: format!("pipewire:{node}"),
        vendor_id: None,
        product_id: None,
        interface_number: None,
        usage_page: None,
        usage: None,
        audio_node_id: Some(node),
        usb_parent: None,
    }
}

#[test]
fn profile_steps_follow_sections_in_order() {
    let mut headset = keyboard("h", None, None, vec![]);
    headset.interfaces = vec![audio_interface(41), audio_interface(42)];
    let live = vec![node(40, "Other sink", "sink"), node(42, "Headset mic", "source"), node(41, "Headset", "sink")];
    assert_eq!(device_node_id(&live, &headset, "sink"), Some(41));
    assert_eq!(device_node_id(&live, &headset, "source"), Some(42));
    let mouse = MouseConfig {
        dpi: DpiConfig { stages: vec![800], active_stage: 0 },
        report_rate_hz: Some(1000),
        active_profile: None,
        button_assignments: vec![
            KeyBinding { key: "3".into(), action: "left".into() },
            KeyBinding { key: "side".into(), action: "right".into() },
            KeyBinding { key: "5".into(), action: "middle".into() },
        ],
        lift_off_distance_mm: Some(2),
    };
    let steps = profile_plan(true, &Some(mouse), true, true, true, &headset, &live);
    assert_eq!(
        steps,
        vec![
            ProfileStep::Lighting,
            ProfileStep::Dpi,
            ProfileStep::PollingRate(1000),
            ProfileStep::Button { button: 3, binding: 0 },
            ProfileStep::Button { button: 5, binding: 2 },
            ProfileStep::LiftOffDistance(2),
            ProfileStep::Output(41),
            ProfileStep::Input(42),
            ProfileStep::Eq(41),
        ]
    );
    let bare = keyboard("k", None, None, vec![]);
    assert_eq!(
        profile_plan(false, &None, true, true, true, &bare, &live),
        vec![ProfileStep::NoOutput, ProfileStep::NoInput, ProfileStep::NoEqTarget]
    );
}

#[test]
fn skipped_sections_are_reported_sorted_and_once() {
    let labels: Vec<String> = [
        ProfileStep::Lighting,
        ProfileStep::Button { button: 12, binding: 0 },
        ProfileStep::NoOutput,
        ProfileStep::Eq(4),
        ProfileStep::NoEqTarget,
    ]
    .into_iter()
    .map(step_label)
    .collect();
    assert_eq!(labels, vec!["lighting", "button_12", "audio", "eq", "eq"]);
    assert_eq!(settled_skips(&labels), vec!["audio", "button_12", "eq", "lighting"]);
    assert!(settled_skips(&vec![]).is_empty());
}

#[test]
fn battery_reports_read_as_a_state() {
    assert_eq!(haste_battery_state(Some(true), Some(true), Some(true)).as_deref(), Some("full"));
    assert_eq!(haste_battery_state(None, Some(true), Some(true)).as_deref(), Some("charging (wired)"));
    assert_eq!(haste_battery_state(Some(false), Some(false), Some(false)).as_deref(), Some("wireless"));
    assert_eq!(haste_battery_state(None, Some(true), None).as_deref(), Some("charging"));
    assert_eq!(haste_battery_state(None, Some(false), Some(true)).as_deref(), Some("battery"));
    assert_eq!(haste_battery_state(None, None, Some(true)), None);
    assert_eq!(saga_battery_state(Some(true), Some(false)).as_deref(), Some("full"));
    assert_eq!(saga_battery_state(None, Some(true)).as_deref(), Some("charging"));
    assert_eq!(saga_battery_state(Some(false), Some(false)).as_deref(), Some("battery"));
    assert_eq!(saga_battery_state(None, None), None);
}

#[test]
fn normalizing_support_twice_changes_nothing() {
    for devices in [
        refresh(vec![mouse_hid("/dev/hidraw2", 0x028e, "HyperX Pulsefire Haste Wireless", "1-2")], &[], false),
        refresh(vec![mouse_hid("/dev/hidraw-saga", 0x04bf, "HyperX Pulsefire Saga Pro", "1-3")], &[], false),
        refresh(vec![hid(0x046d, 0x2222, "Logitech", "Gaming Mouse", "LG", 2)], &[], false),
    ] {
        let mut device = devices[0].clone();
        let once = device.support_level;
        normalize_device_support(&mut device, false);
        assert_eq!(device.support_level, once);
    }
}

#[test]
fn devices_without_a_driver_get_no_writable_native_owner() {
    let devices = refresh(
        vec![HidDescriptor {
            path: "/dev/hidraw1".into(),
            vendor_id: 0x03f0,
            product_id: 0x0fbf,
            manufacturer: Some("HP, Inc".into()),
            product: Some("HyperX SoloCast 2".into()),
            serial: Some("1H552803ZH".into()),
            interface_number: 2,
            usage_page: 0xff90,
            usage: 1,
            usb_parent: Some("3-1".into()),
        }],
        &[node(68, "HyperX SoloCast 2 Analog Stereo", "source")],
        true,
    );
    let device = &devices[0];
    assert!(device.protocol.is_none());
    assert!(device
        .capability_owners
        .iter()
        .any(|owner| owner.backend == BackendKind::ForgeHxNative));
    assert!(device
        .capability_owners
        .iter()
        .filter(|owner| owner.backend == BackendKind::ForgeHxNative)
        .all(|owner| !owner.writable));
}

#[test]
fn old_clients_get_support_decided_in_two_steps() {
    let mut device = keyboard(
        "d",
        None,
        Some("drv"),
        vec![Capability::Dpi, Capability::MicFirmwareInventory],
    );
    device.support_level = SupportLevel::FullySupported;
    device.capability_owners = vec![CapabilityOwner {
        capability: Capability::Dpi,
        backend: BackendKind::ForgeHxNative,
        backend_device_id: Some("drv".into()),
        verified: true,
        writable: true,
        detail: None,
    }];
    let v5 = project_device_for_protocol(device.clone(), 5, false, false);
    assert_eq!(v5.capabilities, vec![Capability::Dpi]);
    assert_eq!(v5.support_level, SupportLevel::FullySupported);
    let v3 = project_device_for_protocol(device, 3, false, false);
    assert_eq!(v3.capabilities, vec![Capability::Dpi]);
    assert_eq!(v3.support_level, SupportLevel::PartiallySupported);
}

#[test]
fn raw_vendor_writes_need_a_verified_native_driver() {
    let owner = CapabilityOwner {
        capability: Capability::Lighting,
        backend: BackendKind::ForgeHxNative,
        backend_device_id: Some("drv".into()),
        verified: true,
        writable: true,
        detail: None,
    };
    let mut without = keyboard("k", None, None, vec![Capability::Lighting]);
    without.capability_owners = vec![owner.clone()];
    assert!(!without.supports_vendor(Capability::Lighting));
    let mut with = keyboard("k", None, Some("drv"), vec![Capability::Lighting]);
    with.capability_owners = vec![owner];
    assert!(with.supports_vendor(Capability::Lighting));
    assert!(!keyboard("k", None, None, vec![Capability::Lighting]).supports_vendor(Capability::Lighting));
}

#[test]
fn no_native_owner_without_a_driver_outside_firmware() {
    let mut info = keyboard("k", None, None, vec![Capability::Lighting, Capability::Dpi]);
    assign(&mut info, &[], BackendHealth::Ready, BackendHealth::Ready, &[]);
    assert!(info.capability_owners.iter().all(|o| o.backend != BackendKind::ForgeHxNative));
    assert!(info.capability_owners.iter().any(|o| o.capability == Capability::Diagnostics));
    let mut driven = keyboard("k", None, Some("drv"), vec![Capability::Lighting]);
    assign(&mut driven, &[], BackendHealth::Ready, BackendHealth::Ready, &[]);
    assert!(driven
        .capability_owners
        .iter()
        .any(|o| o.capability == Capability::Lighting && o.backend == BackendKind::ForgeHxNative));
}

#[test]
fn old_client_support_uses_the_verdict_on_the_shown_device() {
    let device = keyboard("k", None, None, vec![]);
    let shown = project_device_for_protocol(device.clone(), 3, false, true);
    assert_eq!(shown.support_level, SupportLevel::FullySupported);
    let plain = project_device_for_protocol(device.clone(), 3, true, false);
    assert_eq!(plain.support_level, project_device_for_protocol(device.clone(), 3, false, false).support_level);
    assert_eq!(project_device_for_protocol(device, 5, true, false).support_level, SupportLevel::Unavailable);
}

#[test]
fn backend_status_projection_keeps_each_health() {
    let statuses = vec![
        BackendStatus {
            backend: BackendKind::OpenRgb,
            health: BackendHealth::BackendError("sdk refused".into()),
            detail: Some("openrgb".into()),
        },
        BackendStatus {
            backend: BackendKind::ForgeHxDsp,
            health: BackendHealth::Unavailable,
            detail: None,
        },
        BackendStatus {
            backend: BackendKind::Ratbag,
            health: BackendHealth::ProtocolMismatch,
            detail: None,
        },
    ];
    let old = project_backends_for_protocol(&statuses, 3);
    assert_eq!(old.len(), 2);
    assert_eq!(old[0].health, BackendHealth::BackendError("sdk refused".into()));
    assert_eq!(old[0].detail.as_deref(), Some("openrgb"));
    assert_eq!(old[1].backend, BackendKind::Ratbag);
    assert_eq!(old[1].health, BackendHealth::ProtocolMismatch);
    let new = project_backends_for_protocol(&statuses, 4);
    assert_eq!(new.len(), 3);
    assert_eq!(new[1].health, BackendHealth::Unavailable);
}
