use forgehx::output_dsp::{check_slope, OutputDeviceClass, OutputDspProfileError, OutputFilterKind};

#[test]
fn display_speakers_are_tv_or_monitor() {
    assert_eq!(OutputDeviceClass::for_display_speakers(true), OutputDeviceClass::TvSpeaker);
    assert_eq!(
        OutputDeviceClass::for_display_speakers(false),
        OutputDeviceClass::DesktopMonitorSpeaker
    );
    assert_eq!(OutputDeviceClass::all().len(), 19);
}

#[test]
fn only_standard_slopes_are_accepted() {
    for slope in [6, 12, 18, 24, 36, 48] {
        assert!(check_slope(slope).is_ok());
    }
    assert_eq!(check_slope(30), Err(OutputDspProfileError::InvalidSlope));
    assert_eq!(
        OutputDspProfileError::InvalidChannelCount.message(),
        "channel count must be between 1 and 32"
    );
}

#[test]
fn filter_kinds_have_labels() {
    let kinds = OutputFilterKind::all();
    assert!(!kinds.is_empty());
    assert!(kinds.iter().all(|k| !k.label().is_empty()));
}
