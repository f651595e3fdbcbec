use forgehx::model::{DeviceId, ForgeHxError};
use forgehx::dsp::{
    always_on_plan, live_update_plan, ActiveMicState, AlwaysOnPlan, LiveUpdatePlan,
    bridge_header, bridge_socket_path, device_key, grace_to_frames, parse_named_source_node_id,
    runtime_stream_identity, source_target_of, validate_profile_name, MicDspPaths, AETHERSTREAM_SYSTEM_SOURCE_NAME,
    BRIDGE_HEADER_BYTES,
    bridge_magic, monitor_source_name, parse_node_name, parse_pipewire_target,
    parse_pw_cli_named_node_id, BRIDGE_CHANNELS, BRIDGE_PACKET_BYTES, BRIDGE_RATE, BRIDGE_VERSION,
    FRAME_SAMPLES, mic_eq_band_count_ok, multiband_band_counts_ok, noise_suppression_windows_ok,
    playback_history_ok, voiceprint_length_ok,
};

#[test]
fn bridge_packet_contract_is_fixed_10ms_48k_mono() {
    assert_eq!(bridge_magic(), *b"AFXHXM01");
    assert_eq!(BRIDGE_VERSION, 1);
    assert_eq!(BRIDGE_RATE, 48_000);
    assert_eq!(BRIDGE_CHANNELS, 1);
    assert_eq!(FRAME_SAMPLES, 480);
    assert_eq!(BRIDGE_PACKET_BYTES, 1_952);
}

#[test]
fn pw_cli_registry_finds_virtual_processed_source_outside_wpctl_sources_view() {
    let text = r#"id 87, type PipeWire:Interface:Node/3
    object.serial = "413543"
    node.description = "ForgeHX Mic"
    node.name = "forgehx_processed_mic_dev123"
    media.class = "Audio/Source"
"#;
    assert_eq!(
        parse_pw_cli_named_node_id(text, "forgehx_processed_mic_dev123"),
        Some(87)
    );
}

#[test]
fn lib_parses_stable_pipewire_node_name() {
    assert_eq!(
        parse_node_name("  node.name = \"alsa_input.usb-HyperX-00.mono\"\n"),
        Some("alsa_input.usb-HyperX-00.mono".into())
    );
}

#[test]
fn lib_falls_back_to_pipewire_object_serial_when_node_name_is_missing() {
    assert_eq!(
        parse_pipewire_target("  object.serial = \"734\"\n"),
        Some("734".into())
    );
    assert_eq!(
        parse_pipewire_target("* object.serial = 735\n"),
        Some("735".into())
    );
}

#[test]
fn lib_pipewire_target_prefers_node_name_over_serial() {
    assert_eq!(
        parse_pipewire_target(
            "  object.serial = 734\n  node.name = \"alsa_input.usb-HyperX-00.mono\"\n"
        ),
        Some("alsa_input.usb-HyperX-00.mono".into())
    );
}

#[test]
fn default_sink_monitor_name_targets_monitor_source() {
    assert_eq!(
        monitor_source_name("bluez_output.50_5E_5C_6E_16_17.1\n").unwrap(),
        "bluez_output.50_5E_5C_6E_16_17.1.monitor"
    );
}

#[test]
fn empty_default_sink_name_is_rejected() {
    assert!(monitor_source_name("  \n").is_err());
}

#[test]
fn direct_runtime_targets_aetherstream_system_microphone() {
    let id = DeviceId("hyperx-mic".into());
    assert!(runtime_stream_identity(&id).starts_with("forgehx_bridge_"));
    assert_eq!(AETHERSTREAM_SYSTEM_SOURCE_NAME, "aetherstream.system.microphone");
}

#[test]
fn device_key_is_fnv1a_of_the_id() {
    assert_eq!(device_key(&DeviceId("".into())), "cbf29ce484222325");
    assert_eq!(device_key(&DeviceId("a".into())), "af63dc4c8601ec8c");
    assert_eq!(
        runtime_stream_identity(&DeviceId("a".into())),
        "forgehx_bridge_af63dc4c8601ec8c"
    );
}

#[test]
fn bridge_header_is_little_endian_with_sequence() {
    let header = bridge_header(0x0102030405060708);
    assert_eq!(header.len(), BRIDGE_HEADER_BYTES);
    assert_eq!(&header[..8], b"AFXHXM01");
    assert_eq!(&header[8..10], &[1, 0]);
    assert_eq!(&header[12..16], &48_000u32.to_le_bytes());
    assert_eq!(&header[16..18], &[1, 0]);
    assert_eq!(&header[18..20], &480u16.to_le_bytes());
    assert_eq!(&header[20..28], &0x0102030405060708u64.to_le_bytes());
    assert_eq!(&header[28..32], &[0, 0, 0, 0]);
}

#[test]
fn bridge_socket_prefers_runtime_dir() {
    assert_eq!(
        bridge_socket_path(Some("/run/user/1000".into()), Some("1000".into())),
        "/run/user/1000/aetherstream/forgehx-mic.sock"
    );
    assert_eq!(
        bridge_socket_path(None, Some("1000".into())),
        "/tmp/aetherstream-1000/forgehx-mic.sock"
    );
    assert_eq!(bridge_socket_path(None, None), "/tmp/aetherstream-user/forgehx-mic.sock");
}

#[test]
fn grace_rounds_up_to_whole_frames() {
    assert_eq!(grace_to_frames(0), 0);
    assert_eq!(grace_to_frames(10), 1);
    assert_eq!(grace_to_frames(11), 2);
    assert_eq!(grace_to_frames(250), 25);
}

#[test]
fn wpctl_status_finds_named_source() {
    let status = "Audio\n ├─ Sources:\n │  *   73. forgehx_mic_abc [vol: 1.00]\n";
    assert_eq!(parse_named_source_node_id(status, "forgehx_mic_abc"), Some(73));
    assert_eq!(parse_named_source_node_id(status, "other"), None);
}

#[test]
fn profile_names_cannot_escape_the_profile_directory() {
    assert!(validate_profile_name("Broadcast Full").is_ok());
    assert!(validate_profile_name("../escape").is_err());
    assert!(validate_profile_name("").is_err());
    let paths = MicDspPaths::new("/home/u/.config".into());
    assert_eq!(
        paths.profile_path("Broadcast Full").unwrap(),
        "/home/u/.config/forgehx/microphone/profiles/Broadcast Full.json"
    );
    assert!(paths.profile_path("../escape").is_err());
}

#[test]
fn microphone_paths_live_under_the_config_home() {
    let paths = MicDspPaths::new("/home/u/.config".into());
    assert_eq!(paths.profile_dir(), "/home/u/.config/forgehx/microphone/profiles");
    assert_eq!(paths.active_dir(), "/home/u/.config/forgehx/microphone/active");
    assert_eq!(paths.pipewire_dir(), "/home/u/.config/pipewire/pipewire.conf.d");
    let id = DeviceId("a".into());
    assert_eq!(
        paths.active_path(&id),
        "/home/u/.config/forgehx/microphone/active/af63dc4c8601ec8c.json"
    );
    assert_eq!(
        paths.dropin_path(&id),
        "/home/u/.config/pipewire/pipewire.conf.d/91-forgehx-mic-af63dc4c8601ec8c.conf"
    );
}

#[test]
fn source_target_needs_a_name_or_serial() {
    assert_eq!(
        source_target_of(68, "  node.name = \"alsa_input.usb-HyperX\"\n").unwrap(),
        "alsa_input.usb-HyperX"
    );
    assert_eq!(
        source_target_of(68, "  media.class = \"Audio/Source\"\n").unwrap_err(),
        ForgeHxError::AudioUnavailable(
            "PipeWire source 68 has neither node.name nor object.serial; processed-mic routing for this source is unavailable".into()
        )
    );
}

fn remembered(profile: &str, source: &str) -> Option<ActiveMicState> {
    Some(ActiveMicState { profile_name: profile.into(), raw_source_node_name: source.into() })
}

#[test]
fn always_on_restarts_only_for_a_new_source_or_a_stopped_runtime() {
    assert_eq!(
        always_on_plan(&None, "Broadcast Full", "alsa_input.a", true),
        AlwaysOnPlan { remember: true, start_runtime: true }
    );
    assert_eq!(
        always_on_plan(&remembered("Broadcast Full", "alsa_input.a"), "Broadcast Full", "alsa_input.a", true),
        AlwaysOnPlan { remember: false, start_runtime: false }
    );
    assert_eq!(
        always_on_plan(&remembered("Old", "alsa_input.a"), "Broadcast Full", "alsa_input.a", true),
        AlwaysOnPlan { remember: true, start_runtime: false }
    );
    assert_eq!(
        always_on_plan(&remembered("Broadcast Full", "alsa_input.a"), "Broadcast Full", "alsa_input.b", true),
        AlwaysOnPlan { remember: true, start_runtime: true }
    );
    assert_eq!(
        always_on_plan(&remembered("Broadcast Full", "alsa_input.a"), "Broadcast Full", "alsa_input.a", false),
        AlwaysOnPlan { remember: false, start_runtime: true }
    );
}

#[test]
fn live_updates_reach_a_running_runtime_or_start_one() {
    assert_eq!(live_update_plan(&None, "Studio", true), LiveUpdatePlan::SaveOnly);
    assert_eq!(
        live_update_plan(&remembered("Studio", "src"), "Studio", true),
        LiveUpdatePlan::Update { rename: false }
    );
    assert_eq!(
        live_update_plan(&remembered("Old", "src"), "Studio", false),
        LiveUpdatePlan::Start { rename: true }
    );
}

#[test]
fn wpctl_status_source_id_comes_from_the_sources_section() {
    let status = " ├─ Sources:\n │  *   73. HyperX QuadCast S Mono [vol: 1.00]\n";
    assert_eq!(parse_named_source_node_id(status, "HyperX QuadCast"), Some(73));
    let outside = " ├─ Sinks:\n │      12. HyperX QuadCast S [vol: 1.00]\n ├─ Sources:\n │      40. Other [vol: 1.00]\n";
    assert_eq!(parse_named_source_node_id(outside, "HyperX QuadCast"), None);
    let closed = " ├─ Sources:\n │      40. Other\n ├─ Filters:\n │      41. HyperX QuadCast\n";
    assert_eq!(parse_named_source_node_id(closed, "HyperX QuadCast"), None);
    let stops = " ├─ Sources:\n │      HyperX QuadCast without id\n │      42. HyperX QuadCast\n";
    assert_eq!(parse_named_source_node_id(stops, "HyperX QuadCast"), None);
    let skips = " ├─ Sources:\n │      9x. HyperX QuadCast\n │      42. HyperX QuadCast\n";
    assert_eq!(parse_named_source_node_id(skips, "HyperX QuadCast"), Some(42));
}

#[test]
fn microphone_dsp_integer_limits() {
    assert!(mic_eq_band_count_ok(12));
    assert!(!mic_eq_band_count_ok(13));
    assert!(noise_suppression_windows_ok(2000, 500));
    assert!(!noise_suppression_windows_ok(2001, 0));
    assert!(!noise_suppression_windows_ok(0, 501));
    assert!(voiceprint_length_ok(0));
    assert!(voiceprint_length_ok(12));
    assert!(!voiceprint_length_ok(11));
    assert!(playback_history_ok(100));
    assert!(playback_history_ok(2000));
    assert!(!playback_history_ok(99));
    assert!(!playback_history_ok(2001));
    assert!(multiband_band_counts_ok(8, 8, 4));
    assert!(!multiband_band_counts_ok(9, 0, 0));
    assert!(!multiband_band_counts_ok(0, 0, 5));
}
