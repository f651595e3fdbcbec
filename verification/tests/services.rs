use forgehx::backends::BackendError;
use forgehx::model::BackendKind;
use forgehx::services::{ensure_summary, 
    ensure_all_order, ensure_plan, restart_plan, systemctl_args, systemctl_failure, ServicePlan,
    ServiceProbe,
};

#[test]
fn in_process_backends_do_not_require_system_services() {
    assert!(matches!(ensure_plan(BackendKind::ForgeHxNative), ServicePlan::InProcess { .. }));
    assert!(matches!(restart_plan(BackendKind::Diagnostic), ServicePlan::InProcess { .. }));
}

#[test]
fn pipewire_backends_start_pipewire_and_wireplumber() {
    match ensure_plan(BackendKind::LinuxStandard) {
        ServicePlan::Start { probe, ready, services, started, still_down } => {
            assert_eq!(probe, ServiceProbe::Wpctl);
            assert_eq!(ready, "PipeWire/WirePlumber are already reachable");
            assert_eq!(services, vec!["pipewire.service", "wireplumber.service"]);
            assert_eq!(started, "PipeWire and WirePlumber started");
            assert_eq!(still_down, "PipeWire started but wpctl still cannot reach it");
        }
        other => panic!("unexpected {other:?}"),
    }
    match restart_plan(BackendKind::OpenRgb) {
        ServicePlan::Restart { probe, services, .. } => {
            assert_eq!(probe, ServiceProbe::OpenRgb);
            assert_eq!(services, vec!["forgehx-openrgb.service"]);
        }
        other => panic!("unexpected {other:?}"),
    }
    assert!(matches!(ensure_plan(BackendKind::Ratbag), ServicePlan::RatbagDevices { .. }));
    assert_eq!(
        ensure_all_order(),
        vec![BackendKind::LinuxStandard, BackendKind::OpenRgb, BackendKind::Ratbag]
    );
}

#[test]
fn systemctl_runs_in_the_user_session() {
    let services = vec!["pipewire.service".to_string()];
    assert_eq!(
        systemctl_args("restart", &services),
        vec!["--user", "restart", "pipewire.service"]
    );
    match systemctl_failure("start", "  \n") {
        BackendError::Io(m) => assert_eq!(m, "systemctl --user start failed"),
        other => panic!("unexpected {other:?}"),
    }
    match systemctl_failure("start", " Unit not found.\n") {
        BackendError::Io(m) => assert_eq!(m, "Unit not found."),
        other => panic!("unexpected {other:?}"),
    }
}

#[test]
fn activation_summary_lists_ready_backends_and_notes() {
    let none: Vec<String> = vec![];
    assert_eq!(ensure_summary(&none, &none), "backend activation requested");
    let ready = vec!["PipeWire ready".to_string(), "OpenRGB ready".to_string()];
    assert_eq!(ensure_summary(&ready, &none), "PipeWire ready; OpenRGB ready");
    let errors = vec!["libratbag: unavailable".to_string()];
    assert_eq!(
        ensure_summary(&none, &errors),
        "backend activation requested; notes: libratbag: unavailable"
    );
    assert_eq!(
        ensure_summary(&ready, &errors),
        "PipeWire ready; OpenRGB ready; notes: libratbag: unavailable"
    );
}
