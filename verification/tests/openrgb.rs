use forgehx::backends::BackendError;
use forgehx::model::{LightingConfig, LightingEffect};
use forgehx::openrgb::{
    active_mode_index, check_controller_response, find_controller, mode_update_payload,
    parse_controller, payload_size, plan_lighting, LightingRequest, REQUEST_CONTROLLER_DATA,
    check_rescan, client_name_payload, decode_header, encode_header, frame_packet,
    listed_controller_count, negotiate, parse_controller_count, protocol_request, rgb_color,
    scale_percent, static_color_payload, Header, OpenRgbProtocolInfo, CLIENT_PROTOCOL_MAX,
    REQUEST_CONTROLLER_COUNT, REQUEST_PROTOCOL_VERSION, UPDATE_LEDS,
};

#[test]
fn header_round_trip_is_16_byte_little_endian_orgb() {
    let bytes = encode_header(7, UPDATE_LEDS, 44);
    assert_eq!(&bytes[..4], b"ORGB");
    let decoded = decode_header(bytes).unwrap();
    assert_eq!(
        decoded,
        Header {
            device: 7,
            packet_id: UPDATE_LEDS,
            size: 44
        }
    );
}

#[test]
fn protocol_is_clamped_to_supported_parser_version() {
    assert_eq!(9u32.min(CLIENT_PROTOCOL_MAX), 5);
    assert_eq!(3u32.min(CLIENT_PROTOCOL_MAX), 3);
}

#[test]
fn newer_server_is_compatible_through_negotiation() {
    let info = OpenRgbProtocolInfo {
        server_version: 6,
        negotiated_version: 5,
    };
    assert_eq!(info.server_version, 6);
    assert_eq!(info.negotiated_version, 5);
}

#[test]
fn openrgb_rgbcolor_uses_red_low_byte() {
    assert_eq!(rgb_color([0x11, 0x22, 0x33]), 0x00332211);
}

#[test]
fn header_with_wrong_magic_is_refused() {
    let mut bytes = encode_header(1, 2, 3);
    bytes[0] = b'X';
    match decode_header(bytes) {
        Err(BackendError::Protocol(m)) => assert_eq!(m, "OpenRGB packet magic mismatch"),
        other => panic!("unexpected {other:?}"),
    }
}

#[test]
fn frames_carry_header_then_payload() {
    let framed = frame_packet(2, UPDATE_LEDS, &[9, 8, 7]).unwrap();
    assert_eq!(framed.len(), 19);
    assert_eq!(&framed[..4], b"ORGB");
    assert_eq!(&framed[4..8], &2u32.to_le_bytes());
    assert_eq!(&framed[8..12], &UPDATE_LEDS.to_le_bytes());
    assert_eq!(&framed[12..16], &3u32.to_le_bytes());
    assert_eq!(&framed[16..], &[9, 8, 7]);
}

#[test]
fn negotiation_clamps_to_client_maximum() {
    assert_eq!(protocol_request(), CLIENT_PROTOCOL_MAX.to_le_bytes().to_vec());
    let response = Header {
        device: 0,
        packet_id: REQUEST_PROTOCOL_VERSION,
        size: 4,
    };
    let info = negotiate(&response, &9u32.to_le_bytes()).unwrap();
    assert_eq!(info.server_version, 9);
    assert_eq!(info.negotiated_version, 5);
    let older = negotiate(&response, &3u32.to_le_bytes()).unwrap();
    assert_eq!(older.negotiated_version, 3);
    assert!(negotiate(&response, &[1, 0]).is_err());
}

#[test]
fn controller_counts_are_read_little_endian() {
    let response = Header {
        device: 0,
        packet_id: REQUEST_CONTROLLER_COUNT,
        size: 4,
    };
    assert_eq!(parse_controller_count(&response, &[3, 0, 0, 0]).unwrap(), 3);
    assert!(parse_controller_count(&response, &[3, 0, 0]).is_err());
    assert_eq!(listed_controller_count(&[2, 0, 0, 0]).unwrap(), 2);
}

#[test]
fn rescan_needs_protocol_five() {
    assert!(check_rescan(5).is_ok());
    assert!(check_rescan(4).is_err());
}

#[test]
fn client_name_is_nul_terminated() {
    let name = client_name_payload();
    assert_eq!(*name.last().unwrap(), 0);
    assert!(name.starts_with(b"ForgeHX"));
}

#[test]
fn static_color_payload_repeats_color_per_led() {
    let payload = static_color_payload(2, [0x11, 0x22, 0x33]).unwrap();
    assert_eq!(&payload[..4], &14u32.to_le_bytes());
    assert_eq!(&payload[4..6], &2u16.to_le_bytes());
    assert_eq!(&payload[6..10], &0x00332211u32.to_le_bytes());
    assert_eq!(&payload[10..14], &0x00332211u32.to_le_bytes());
}

#[test]
fn percent_scales_into_range() {
    assert_eq!(scale_percent(0, 10, 110), 10);
    assert_eq!(scale_percent(100, 10, 110), 110);
    assert_eq!(scale_percent(50, 0, 255), 127);
}

fn put_u16(out: &mut Vec<u8>, v: u16) {
    out.extend_from_slice(&v.to_le_bytes());
}

fn put_u32(out: &mut Vec<u8>, v: u32) {
    out.extend_from_slice(&v.to_le_bytes());
}

fn put_str(out: &mut Vec<u8>, text: &str) {
    put_u16(out, text.len() as u16 + 1);
    out.extend_from_slice(text.as_bytes());
    out.push(0);
}

fn put_mode(out: &mut Vec<u8>, name: &str, value: u32, speed: (u32, u32, u32), colors: &[u32]) {
    put_str(out, name);
    put_u32(out, value);
    put_u32(out, 0);
    put_u32(out, speed.0);
    put_u32(out, speed.1);
    put_u32(out, 1);
    put_u32(out, 1);
    put_u32(out, speed.2);
    put_u32(out, 0);
    put_u32(out, 1);
    put_u16(out, colors.len() as u16);
    for c in colors {
        put_u32(out, *c);
    }
}

/// Controller data as a protocol-0 server sends it.
fn keyboard_data() -> Vec<u8> {
    let mut out = Vec::new();
    put_u32(&mut out, 0);
    put_u32(&mut out, 5);
    put_str(&mut out, "HyperX Alloy");
    put_str(&mut out, "Keyboard");
    put_str(&mut out, "1.0");
    put_str(&mut out, "SN1");
    put_str(&mut out, "HID: /dev/hidraw3");
    put_u16(&mut out, 2);
    put_u32(&mut out, 1);
    put_mode(&mut out, "Static", 0, (0, 0, 0), &[0x0000ff]);
    put_mode(&mut out, "Breathing", 2, (10, 110, 50), &[0]);
    put_u16(&mut out, 1);
    put_str(&mut out, "Keyboard");
    put_u32(&mut out, 1);
    put_u32(&mut out, 104);
    put_u32(&mut out, 104);
    put_u32(&mut out, 104);
    put_u16(&mut out, 0);
    put_u16(&mut out, 1);
    put_str(&mut out, "Key: A");
    put_u32(&mut out, 0);
    put_u16(&mut out, 1);
    put_u32(&mut out, 0);
    let size = out.len() as u32;
    out[..4].copy_from_slice(&size.to_le_bytes());
    out
}

#[test]
fn controller_data_is_parsed_into_metadata_and_modes() {
    let controller = parse_controller(3, 0, &keyboard_data()).unwrap();
    let meta = &controller.metadata;
    assert_eq!(meta.backend_device_id, "3");
    assert_eq!(meta.name, "HyperX Alloy");
    assert_eq!(meta.vendor, "");
    assert_eq!(meta.description, "Keyboard");
    assert_eq!(meta.version, "1.0");
    assert_eq!(meta.serial, "SN1");
    assert_eq!(meta.location, "HID: /dev/hidraw3");
    assert_eq!(meta.led_count, 1);
    assert_eq!(meta.protocol_version, 0);
    assert_eq!(meta.zones.len(), 1);
    assert_eq!(meta.zones[0].name, "Keyboard");
    assert_eq!(meta.zones[0].led_count, 104);
    assert_eq!(meta.modes.len(), 2);
    assert_eq!(meta.modes[1].name, "Breathing");
    assert_eq!((meta.modes[1].speed_min, meta.modes[1].speed_max), (10, 110));
    assert_eq!(meta.modes[1].brightness_min, None);
    assert_eq!(controller.active_mode, 1);
    assert_eq!(controller.modes[0].colors, vec![0x0000ff]);
    assert_eq!(active_mode_index(&controller).unwrap(), 1);
}

#[test]
fn truncated_or_oversized_controller_data_is_refused() {
    let data = keyboard_data();
    assert!(parse_controller(3, 0, &data[..data.len() - 1]).is_err());
    let mut wrong = data.clone();
    wrong[..4].copy_from_slice(&(data.len() as u32 + 1).to_le_bytes());
    assert!(matches!(
        parse_controller(3, 0, &wrong),
        Err(BackendError::Protocol(m)) if m == "invalid OpenRGB controller data size"
    ));
}

#[test]
fn controllers_are_found_by_index() {
    let controllers = vec![parse_controller(3, 0, &keyboard_data()).unwrap()];
    assert_eq!(find_controller(&controllers, 3).unwrap(), 0);
    assert!(matches!(
        find_controller(&controllers, 4),
        Err(BackendError::Invalid(m)) if m == "OpenRGB controller 4 not found"
    ));
}

#[test]
fn lighting_plans_pick_a_matching_mode_or_dim_a_static_colour() {
    let controller = parse_controller(3, 0, &keyboard_data()).unwrap();
    let config = |effect| LightingConfig { effect, color: [200, 100, 50], brightness: 50, speed: 40 };
    match plan_lighting(&controller, &config(LightingEffect::Static)).unwrap() {
        LightingRequest::StaticColor { led_count, color } => {
            assert_eq!(led_count, 1);
            assert_eq!(color, [100, 50, 25]);
        }
        _ => panic!("expected a static colour"),
    }
    match plan_lighting(&controller, &config(LightingEffect::Breathing)).unwrap() {
        LightingRequest::Mode { mode, brightness_pct, speed_pct, color } => {
            assert_eq!(mode, 1);
            assert_eq!(brightness_pct, 50);
            assert_eq!(speed_pct, Some(40));
            assert_eq!(color, Some([200, 100, 50]));
        }
        _ => panic!("expected a mode change"),
    }
    assert!(matches!(
        plan_lighting(&controller, &config(LightingEffect::Spectrum)),
        Err(BackendError::Invalid(m)) if m == "requested effect Spectrum is not exposed by this OpenRGB controller"
    ));
}

#[test]
fn mode_update_payload_scales_speed_and_fills_colours() {
    let controller = parse_controller(3, 0, &keyboard_data()).unwrap();
    let payload = mode_update_payload(&controller.modes[1], 0, 100, Some(50), Some([255, 0, 0])).unwrap();
    let mut mode = Vec::new();
    put_str(&mut mode, "Breathing");
    put_u32(&mut mode, 2);
    put_u32(&mut mode, 0);
    put_u32(&mut mode, 10);
    put_u32(&mut mode, 110);
    put_u32(&mut mode, 1);
    put_u32(&mut mode, 1);
    put_u32(&mut mode, 60);
    put_u32(&mut mode, 0);
    put_u32(&mut mode, 1);
    put_u16(&mut mode, 1);
    put_u32(&mut mode, 0x0000ff);
    let mut expected = Vec::new();
    put_u32(&mut expected, 8 + mode.len() as u32);
    put_u32(&mut expected, 1);
    expected.extend_from_slice(&mode);
    assert_eq!(payload, expected);
}

#[test]
fn packet_sizes_and_controller_replies_are_checked() {
    let header = |device, packet_id, size| Header { device, packet_id, size };
    assert_eq!(payload_size(&header(0, 0, 1024)).unwrap(), 1024);
    assert!(payload_size(&header(0, 0, 8 * 1024 * 1024 + 1)).is_err());
    assert!(check_controller_response(&header(3, REQUEST_CONTROLLER_DATA, 10), 3).is_ok());
    assert!(check_controller_response(&header(2, REQUEST_CONTROLLER_DATA, 10), 3).is_err());
}
