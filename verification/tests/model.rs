use forgehx::model::{migrated_mouse, migration_needed, validate_profile_settings, BackendKind, DeviceClass, DpiConfig, FirmwareSupportLevel, ForgeHxError, KeyBinding, LightingConfig, LightingEffect, MouseConfig, SupportLevel, VendorFamily};

#[test]
fn inventory_only_firmware_support_never_implies_update_or_recovery() {
    let support = FirmwareSupportLevel::InventoryOnly;
    assert!(!support.can_update());
    assert!(!support.can_recover());
}

#[test]
fn labels_read_as_displayed() {
    assert_eq!(DeviceClass::AudioInterface.label(), "Audio Interface");
    assert_eq!(SupportLevel::GenericControls.label(), "Generic Controls");
    assert_eq!(VendorFamily::Generic("Acme".into()).label(), "Acme");
    assert_eq!(BackendKind::Ratbag.label(), "libratbag");
}

#[test]
fn profile_settings_are_checked_in_order() {
    let message = |r: Result<(), ForgeHxError>| match r {
        Err(ForgeHxError::InvalidProfile(m)) => m,
        other => panic!("unexpected {other:?}"),
    };
    assert!(matches!(
        validate_profile_settings(1, "x", &None, &None, &None),
        Err(ForgeHxError::UnsupportedSchema(1))
    ));
    assert_eq!(message(validate_profile_settings(2, "  ", &None, &None, &None)), "profile name cannot be empty");
    assert_eq!(
        message(validate_profile_settings(2, "..", &None, &None, &None)),
        "profile name cannot contain path separators"
    );
    let bright = LightingConfig { effect: LightingEffect::Static, color: [1, 2, 3], brightness: 101, speed: 0 };
    assert_eq!(
        message(validate_profile_settings(2, "ok", &Some(bright), &None, &None)),
        "lighting brightness and speed must be between 0 and 100"
    );
    let bad_dpi = DpiConfig { stages: vec![800], active_stage: 1 };
    assert_eq!(
        message(validate_profile_settings(2, "ok", &None, &Some(bad_dpi), &None)),
        "active DPI stage is out of range"
    );
    let mouse = MouseConfig {
        dpi: DpiConfig { stages: vec![800], active_stage: 0 },
        report_rate_hz: Some(300),
        active_profile: None,
        button_assignments: vec![],
        lift_off_distance_mm: None,
    };
    assert_eq!(
        message(validate_profile_settings(2, "ok", &None, &None, &Some(mouse))),
        "unsupported mouse report rate"
    );
    assert!(validate_profile_settings(2, "ok", &None, &None, &None).is_ok());
    assert_eq!(migration_needed(2).unwrap(), false);
    assert_eq!(migration_needed(1).unwrap(), true);
    assert!(migration_needed(3).is_err());
    let bindings = vec![KeyBinding { key: "1".into(), action: "left".into() }];
    let migrated = migrated_mouse(None, &Some(DpiConfig { stages: vec![800, 1600], active_stage: 1 }), &bindings).unwrap();
    assert_eq!(migrated.dpi.stages, vec![800, 1600]);
    assert_eq!(migrated.button_assignments[0].action, "left");
    assert!(migrated_mouse(None, &None, &vec![]).is_none());
}

#[test]
fn default_lighting_is_white_static_full_brightness_half_speed() {
    let config = LightingConfig::default_config();
    assert_eq!(config.effect, LightingEffect::Static);
    assert_eq!(config.color, [255, 255, 255]);
    assert_eq!(config.brightness, 100);
    assert_eq!(config.speed, 50);
}
