use forgehx::audio::{default_config_home, eq_config_name_ok, eq_layout_error, escape_spa, merge_audio_order, node_target, parse_node_name, parse_pipewire_target, parse_pw_cli_audio_nodes, parse_wpctl_status, render_pipewire_config, EqManager, PipeWireTarget};
use forgehx::model::ForgeHxError;

#[test]
fn parses_stable_pipewire_node_name() {
    assert_eq!(
        parse_node_name("  node.name = \"alsa_output.usb-HyperX-00.analog-stereo\"\n"),
        Some("alsa_output.usb-HyperX-00.analog-stereo".into())
    );
}

#[test]
fn falls_back_to_pipewire_object_serial_when_node_name_is_missing() {
    assert_eq!(
        parse_pipewire_target("  object.serial = \"734\"\n"),
        Some(PipeWireTarget::ObjectSerial(734))
    );
    assert_eq!(
        parse_pipewire_target("* object.serial = 735\n"),
        Some(PipeWireTarget::ObjectSerial(735))
    );
}

#[test]
fn pipewire_target_prefers_node_name_over_serial() {
    assert_eq!(
        parse_pipewire_target(
            "  object.serial = 734\n  node.name = \"alsa_output.usb-HyperX-00.analog-stereo\"\n"
        ),
        Some(PipeWireTarget::NodeName(
            "alsa_output.usb-HyperX-00.analog-stereo".into()
        ))
    );
}

#[test]
fn parser_keeps_hyperx_and_non_hyperx_audio_nodes() {
    let input = r#"
Audio
 ├─ Sinks:
 │  *   54. HyperX Cloud III Analog Stereo [vol: 0.75]
 │      61. Logitech G Pro X Wireless [vol: 0.50 MUTED]
 │      62. Built-in Audio Analog Stereo [vol: 1.00]
 ├─ Sources:
 │      73. HyperX QuadCast S Mono [vol: 1.00]
Video
 ├─ Devices:
 │      90. Webcam
"#;
    let nodes = parse_wpctl_status(input);
    assert_eq!(nodes.len(), 4);
    assert_eq!(nodes[0].id, 54);
    assert_eq!(nodes[1].id, 61);
    assert!(nodes[1].muted_marker);
    assert_eq!(nodes[2].id, 62);
    assert_eq!(nodes[3].id, 73);
    assert_eq!(nodes[0].name, "HyperX Cloud III Analog Stereo");
    assert!(!nodes[0].muted_marker);
    assert!(nodes[3].is_source);
    assert!(!nodes[0].is_source);
}

#[test]
fn registry_parser_recovers_physical_source_missing_from_wpctl_view() {
    let text = r#"
id 371683, type PipeWire:Interface:Node/3
    node.name = "alsa_input.usb-HP__Inc_HyperX_SoloCast_2_SERIAL-00.analog-stereo"
    node.description = "HyperX SoloCast 2 Analog Stereo"
    media.class = "Audio/Source"
id 413543, type PipeWire:Interface:Node/3
    node.name = "forgehx_mic_a20cca526b23023a"
    media.class = "Audio/Source"
"#;
    let nodes = parse_pw_cli_audio_nodes(text);
    assert_eq!(nodes.len(), 2);
    assert_eq!(nodes[0].id, 371683);
    assert_eq!(nodes[0].kind, "source");
    assert!(nodes[0].name.contains("HyperX_SoloCast_2"));
}

#[test]
fn wpctl_entry_wins_when_registry_has_same_node_id() {
    let merged = merge_audio_order(&[81], &[81]);
    assert_eq!(merged, vec![0]);
    let merged = merge_audio_order(&[81, 90], &[70, 81]);
    assert_eq!(merged, vec![2, 0, 1]);
}

#[test]
fn spa_strings_escape_quotes_and_backslashes() {
    assert_eq!(escape_spa(r#"a"b\c"#), r#"a\"b\\c"#);
    assert_eq!(
        PipeWireTarget::NodeName("x\"y".into()).config_value(),
        "\"x\\\"y\""
    );
    assert_eq!(PipeWireTarget::ObjectSerial(734).config_value(), "734");
}

#[test]
fn eq_manager_confines_files_to_its_config_root() {
    let manager = EqManager::new("/home/u/.config".into());
    assert_eq!(manager.eq_dir(), "/home/u/.config/forgehx/eq");
    assert_eq!(
        manager.profile_json("Safe").unwrap(),
        "/home/u/.config/forgehx/eq/Safe.json"
    );
    assert!(manager.profile_json("../escape").is_err());
    assert!(manager.profile_txt("a/b").is_err());
}

#[test]
fn config_home_falls_back_to_home() {
    assert_eq!(default_config_home(Some("/x".into()), Some("/h".into())), "/x");
    assert_eq!(default_config_home(None, Some("/h".into())), "/h/.config");
    assert_eq!(default_config_home(None, None), ".config");
}

#[test]
fn node_without_target_is_reported() {
    assert_eq!(node_target(5, "  object.serial = 9\n").unwrap(), PipeWireTarget::ObjectSerial(9));
    match node_target(5, "nothing\n") {
        Err(ForgeHxError::AudioUnavailable(m)) => assert_eq!(
            m,
            "PipeWire node 5 has neither node.name nor object.serial; EQ routing for this node is unavailable"
        ),
        other => panic!("unexpected {other:?}"),
    }
}

#[test]
fn eq_config_names_and_layouts() {
    assert!(eq_config_name_ok("Studio"));
    assert!(!eq_config_name_ok("   "));
    assert!(!eq_config_name_ok("a/b"));
    assert!(!eq_config_name_ok("a\\b"));
    assert_eq!(eq_layout_error(2, 2, 32), None);
    assert_eq!(
        eq_layout_error(0, 0, 0),
        Some("EQ channel map does not match channel count".to_string())
    );
    assert_eq!(
        eq_layout_error(9, 9, 0),
        Some("EQ channel map does not match channel count".to_string())
    );
    assert_eq!(
        eq_layout_error(2, 1, 0),
        Some("EQ channel map does not match channel count".to_string())
    );
    assert_eq!(eq_layout_error(2, 2, 33), Some("EQ supports at most 32 filters".to_string()));
}

#[test]
fn pipewire_config_loads_the_parametric_equalizer() {
    let map = vec!["FL".to_string(), "FR".to_string()];
    let target = PipeWireTarget::NodeName("alsa_output.usb-HyperX".into());
    let text = render_pipewire_config("Studio \"A\"", 2, &map, "/eq/Studio.txt", Some(&target));
    let expected = [
        "# Managed by ForgeHX. Delete or use `forgehx eq bypass` to disable.\n",
        "context.modules = [\n",
        "  { name = libpipewire-module-parametric-equalizer\n",
        "    args = {\n",
        "      equalizer.filepath = \"/eq/Studio.txt\"\n",
        "      equalizer.description = \"ForgeHX EQ - Studio \\\"A\\\"\"\n",
        "      audio.channels = 2\n",
        "      audio.position = [ FL FR ]\n",
        "      capture.props = {\n",
        "        node.name = \"forgehx_eq_input\"\n",
        "        media.class = \"Audio/Sink\"\n",
        "      }\n",
        "      playback.props = {\n",
        "        node.name = \"forgehx_eq_output\"\n",
        "        node.passive = true\n",
        "        target.object = \"alsa_output.usb-HyperX\"\n",
        "        node.dont-reconnect = true\n",
        "      }\n",
        "    }\n",
        "  }\n",
        "]\n",
    ]
    .concat();
    assert_eq!(text, expected);
    let untargeted = render_pipewire_config("Flat", 1, &["MONO".to_string()], "/eq/Flat.txt", None);
    assert!(untargeted.contains("audio.position = [ MONO ]"));
    assert!(!untargeted.contains("target.object"));
    assert!(render_pipewire_config("Flat", 2, &map, "/t", Some(&PipeWireTarget::ObjectSerial(42)))
        .contains("target.object = 42\n"));
}

#[test]
fn eq_dropin_lives_in_the_pipewire_config_dir() {
    let manager = EqManager::new("/home/u/.config".into());
    assert_eq!(
        manager.pipewire_dropin(),
        "/home/u/.config/pipewire/pipewire.conf.d/90-forgehx-eq.conf"
    );
}
