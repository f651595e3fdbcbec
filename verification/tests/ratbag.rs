use forgehx::ratbag::{info_within_limits, parse_info, parse_list, validate_action, validate_id, RatbagClient};

#[test]
fn parses_ratbag_list() {
    let values = parse_list("hollering-marmot: Logitech G502 HERO\n");
    assert_eq!(values[0].id, "hollering-marmot");
}

#[test]
fn rejects_shell_metacharacters_in_actions() {
    assert!(validate_action("macro ; rm").is_err());
    assert!(validate_id("mouse;rm").is_err());
}

#[test]
fn parses_active_profile_dpi_and_rate() {
    let text = "Number of Buttons: 11\nProfile 0: (active)\n  Report Rate: 1000Hz\n  Resolutions:\n    0: 800dpi\n    1: 1600dpi (active)\n";
    let state = parse_info("mouse", text).unwrap();
    assert_eq!(state.active_profile, Some(0));
    assert_eq!(state.report_rate_hz, Some(1000));
    assert_eq!(state.dpi_stages, vec![800, 1600]);
    assert_eq!(state.active_dpi_stage, Some(1));
}

#[test]
fn info_reads_only_the_active_profile() {
    let text = "Profile 0:\n  Report Rate: 500Hz\n    0: 400dpi\nProfile 1: (active)\n  Report Rate: 1000Hz\n    2: 3200dpi (active)\nNumber of Buttons: 6\n";
    let state = parse_info("m", text).unwrap();
    assert_eq!(state.backend_device_id, "m");
    assert_eq!(state.active_profile, Some(1));
    assert_eq!(state.report_rate_hz, Some(1000));
    assert_eq!(state.dpi_stages, vec![0, 0, 3200]);
    assert_eq!(state.active_dpi_stage, Some(2));
    assert_eq!(state.button_count, Some(6));
}

#[test]
fn info_without_active_profile_defaults_to_first() {
    let state = parse_info("m", "    0: 1600x1600dpi\n    1: 800dpi@1000Hz\n").unwrap();
    assert_eq!(state.active_profile, Some(0));
    assert!(state.dpi_stages.is_empty());
}

#[test]
fn client_builds_checked_ratbagctl_arguments() {
    let client = RatbagClient;
    assert_eq!(
        client.set_dpi("mouse-1", 0, 1, 1600).unwrap(),
        vec!["mouse-1", "profile", "0", "resolution", "1", "dpi", "set", "1600"]
    );
    assert!(client.set_dpi("mouse-1", 0, 1, 50).is_err());
    assert!(client.set_dpi("bad id", 0, 1, 1600).is_err());
    assert_eq!(
        client.set_button_action("m", 1, 3, "macro KEY_A").unwrap(),
        vec!["m", "profile", "1", "button", "3", "action", "set", "macro", "KEY_A"]
    );
    assert!(client.set_button_action("m", 1, 3, "macro $(x)").is_err());
    assert_eq!(client.state_command("m").unwrap(), vec!["m", "info"]);
}

#[test]
fn devices_take_model_from_info() {
    let devices = RatbagClient.devices(
        "a-b: Mouse One\nc-d: Mouse Two\n",
        &[Some("Model: usb:046d:c08b:0\n".into()), None],
    );
    assert_eq!(devices.len(), 2);
    assert_eq!(devices[0].model.as_deref(), Some("usb:046d:c08b:0"));
    assert_eq!(devices[1].model, None);
    assert_eq!(devices[1].name, "Mouse Two");
}

#[test]
fn profile_and_rate_commands_name_the_device_first() {
    let client = RatbagClient;
    assert_eq!(
        client.set_active_resolution("mouse", 1, 2).unwrap(),
        vec!["mouse", "profile", "1", "resolution", "active", "set", "2"]
    );
    assert!(client.set_active_resolution("mouse;x", 1, 2).is_err());
    assert_eq!(
        client.set_report_rate("mouse", 0, 1000).unwrap(),
        vec!["mouse", "profile", "0", "rate", "set", "1000"]
    );
    assert!(client.set_report_rate("mouse", 0, 999).is_err());
    assert_eq!(
        client.set_profile("mouse", 3).unwrap(),
        vec!["mouse", "profile", "active", "set", "3"]
    );
    assert!(client.set_profile("", 3).is_err());
}

#[test]
fn refused_ratbag_requests_say_why() {
    let client = RatbagClient;
    let message = |r: Result<Vec<String>, forgehx::backends::BackendError>| match r {
        Err(forgehx::backends::BackendError::Invalid(m)) => m,
        other => panic!("unexpected {other:?}"),
    };
    assert_eq!(message(client.set_report_rate("mouse", 0, 999)), "unsupported report rate");
    assert_eq!(message(client.set_report_rate("mouse;x", 0, 999)), "invalid ratbag device identifier");
    assert_eq!(message(client.set_dpi("mouse", 0, 0, 50)), "DPI must be 100..=30000");
    assert_eq!(message(client.state_command("")), "invalid ratbag device identifier");
    assert_eq!(message(client.set_button_action("mouse", 0, 1, "")), "invalid ratbag button action");
}

#[test]
fn model_is_the_first_model_line() {
    let devices = RatbagClient.devices(
        "a-b: Mouse\n",
        &[Some("Name: x\n  Model:  usb:1:2:0  \nModel: later\n".into())],
    );
    assert_eq!(devices[0].model.as_deref(), Some("usb:1:2:0"));
    let none = RatbagClient.devices("a-b: Mouse\n", &[Some("Name: x\nmodel: lower\n".into())]);
    assert_eq!(none[0].model, None);
}

#[test]
fn info_limits_are_checked_before_reading() {
    assert!(info_within_limits("Profile 0: (active)\n    0: 800dpi (active)\n"));
    assert!(!info_within_limits("Profile 0: (active)\n    18446744073709551615: 800dpi\n"));
    assert!(info_within_limits("Profile 0: (active)\nProfile 1:\n    18446744073709551615: 800dpi\n"));
    assert!(info_within_limits(""));
}

#[test]
fn actions_with_shell_characters_are_refused() {
    for action in ["left;rm", "a|b", "x $(y)", "k `z`", "m > f", "q'"] {
        assert!(validate_action(action).is_err(), "{action}");
    }
    assert_eq!(validate_action("  button-1  KEY_A+ctrl_x ").unwrap(), vec!["button-1", "KEY_A+ctrl_x"]);
}
