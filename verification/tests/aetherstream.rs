use forgehx::aetherstream::{
    check_envelope_version, frame_length, frame_prefix, OutputDspClient, OutputDspRuntimeResponse,
    MAX_FRAME,
};

#[test]
fn status_reply_is_read_and_wrong_reply_refused() {
    let client = OutputDspClient;
    let status = client
        .status(OutputDspRuntimeResponse::Status {
            live: true,
            active_device_id: Some("dev".into()),
            generation: 7,
        })
        .unwrap();
    assert!(status.live);
    assert_eq!(status.active_device_id.as_deref(), Some("dev"));
    assert_eq!(status.generation, 7);
    assert_eq!(
        client
            .status(OutputDspRuntimeResponse::Applied {
                device_id: "dev".into(),
                generation: 1
            })
            .unwrap_err(),
        "AetherStream returned apply reply to status request"
    );
    assert_eq!(
        client
            .status(OutputDspRuntimeResponse::Rejected { reason: "busy".into() })
            .unwrap_err(),
        "busy"
    );
}

#[test]
fn apply_reply_gives_generation() {
    let client = OutputDspClient;
    assert_eq!(
        client
            .apply_outcome(OutputDspRuntimeResponse::Applied {
                device_id: "d".into(),
                generation: 9
            })
            .unwrap(),
        9
    );
    assert!(client
        .apply_outcome(OutputDspRuntimeResponse::Status {
            live: false,
            active_device_id: None,
            generation: 0
        })
        .is_err());
}

#[test]
fn socket_path_follows_runtime_dir() {
    assert_eq!(
        OutputDspClient::socket_path(Some("/run/user/7".into()), None),
        "/run/user/7/aetherstream/output-dsp.sock"
    );
    assert_eq!(
        OutputDspClient::socket_path(None, Some("7".into())),
        "/tmp/aetherstream-7/output-dsp.sock"
    );
}

#[test]
fn frames_are_length_prefixed_big_endian() {
    assert_eq!(frame_prefix(258).unwrap(), [0, 0, 1, 2]);
    assert_eq!(frame_length([0, 0, 1, 2]).unwrap(), 258);
    assert!(frame_length([0, 0, 0, 0]).is_err());
    assert!(frame_prefix(MAX_FRAME + 1).is_err());
    assert_eq!(frame_length(frame_prefix(MAX_FRAME).unwrap()).unwrap(), MAX_FRAME);
}

#[test]
fn envelope_version_must_match() {
    assert!(check_envelope_version(1).is_ok());
    assert_eq!(
        check_envelope_version(2).unwrap_err(),
        "AetherStream output-DSP protocol mismatch: 2"
    );
}
