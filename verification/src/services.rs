//! What it takes to bring a backend's services up or to restart them: which
//! user services, which probe to wait for, and what is reported. Running
//! `systemctl`, probing and waiting are left to the caller.
use crate::audio::{join_strings, joined};
use crate::backends::BackendError;
use crate::model::BackendKind;
use crate::ratbag::string_views;
use crate::text::{concat, owned, str_chars, string_from, trim, trim_ws};
use vstd::prelude::*;

verus! {

/// How a backend is seen to be reachable.
#[derive(Debug, Clone, Copy, PartialEq, Eq, Structural)]
pub enum ServiceProbe {
    /// `wpctl status` succeeds.
    Wpctl,
    /// The OpenRGB SDK answers.
    OpenRgb,
}

/// What ensuring or restarting a backend takes.
#[derive(Debug, Clone)]
pub enum ServicePlan {
    /// Nothing to run: the backend lives in the daemon.
    InProcess { message: String },
    /// Probe; when it answers, report `ready`. Else start the user
    /// `services` and wait for the probe: report `started`, or fail with
    /// `still_down`.
    Start {
        probe: ServiceProbe,
        ready: String,
        services: Vec<String>,
        started: String,
        still_down: String,
    },
    /// Restart the user `services` and wait for the probe: report `done`,
    /// or fail with `still_down`.
    Restart { probe: ServiceProbe, services: Vec<String>, done: String, still_down: String },
    /// Ask ratbagd for its devices, which activates it; report their number
    /// after `prefix`.
    RatbagDevices { prefix: String },
}

pub open spec fn pipewire_services() -> Seq<Seq<char>> {
    seq!["pipewire.service"@, "wireplumber.service"@]
}

pub open spec fn openrgb_services() -> Seq<Seq<char>> {
    seq!["forgehx-openrgb.service"@]
}

pub open spec fn openrgb_still_down() -> Seq<char> {
    "OpenRGB service started but SDK port 6742 is not reachable"@
}

pub open spec fn is_start(
    p: ServicePlan,
    probe: ServiceProbe,
    ready: Seq<char>,
    services: Seq<Seq<char>>,
    started: Seq<char>,
    still_down: Seq<char>,
) -> bool {
    p matches ServicePlan::Start { probe: q, ready: r, services: s, started: t, still_down: d } && q
        == probe && r@ == ready && string_views(s@) == services && t@ == started && d@ == still_down
}

pub open spec fn is_restart(
    p: ServicePlan,
    probe: ServiceProbe,
    services: Seq<Seq<char>>,
    done: Seq<char>,
    still_down: Seq<char>,
) -> bool {
    p matches ServicePlan::Restart { probe: q, services: s, done: t, still_down: d } && q == probe
        && string_views(s@) == services && t@ == done && d@ == still_down
}

fn pipewire_list() -> (r: Vec<String>)
    ensures
        string_views(r@) == pipewire_services(),
{
    let v = vec![owned("pipewire.service"), owned("wireplumber.service")];
    assert(string_views(v@) =~= pipewire_services());
    v
}

fn openrgb_list() -> (r: Vec<String>)
    ensures
        string_views(r@) == openrgb_services(),
{
    let v = vec![owned("forgehx-openrgb.service")];
    assert(string_views(v@) =~= openrgb_services());
    v
}

/// What ensuring a backend takes: the native and diagnostic backends are in
/// the daemon; the input DSP and the Linux-standard interfaces need
/// PipeWire and WirePlumber; OpenRGB needs its SDK service; ratbagd is
/// activated by asking it for its devices.
pub fn ensure_plan(backend: BackendKind) -> (r: ServicePlan)
    ensures
        match backend {
            BackendKind::ForgeHxNative => r matches ServicePlan::InProcess { message: m } && m@
                == "ForgeHX native backend is in-process"@,
            BackendKind::Diagnostic => r matches ServicePlan::InProcess { message: m } && m@
                == "diagnostic backend is in-process"@,
            BackendKind::ForgeHxDsp => is_start(
                r,
                ServiceProbe::Wpctl,
                "ForgeHX input DSP has a reachable PipeWire control plane"@,
                pipewire_services(),
                "ForgeHX input DSP control plane started"@,
                "PipeWire started but ForgeHX input DSP still cannot reach it"@,
            ),
            BackendKind::LinuxStandard => is_start(
                r,
                ServiceProbe::Wpctl,
                "PipeWire/WirePlumber are already reachable"@,
                pipewire_services(),
                "PipeWire and WirePlumber started"@,
                "PipeWire started but wpctl still cannot reach it"@,
            ),
            BackendKind::OpenRgb => is_start(
                r,
                ServiceProbe::OpenRgb,
                "OpenRGB SDK is already reachable"@,
                openrgb_services(),
                "OpenRGB compatibility service started"@,
                openrgb_still_down(),
            ),
            BackendKind::Ratbag => r matches ServicePlan::RatbagDevices { prefix: p } && p@
                == "ratbagd D-Bus backend ready ("@,
        },
{
    match backend {
        BackendKind::ForgeHxNative => ServicePlan::InProcess {
            message: owned("ForgeHX native backend is in-process"),
        },
        BackendKind::Diagnostic => ServicePlan::InProcess {
            message: owned("diagnostic backend is in-process"),
        },
        BackendKind::ForgeHxDsp => ServicePlan::Start {
            probe: ServiceProbe::Wpctl,
            ready: owned("ForgeHX input DSP has a reachable PipeWire control plane"),
            services: pipewire_list(),
            started: owned("ForgeHX input DSP control plane started"),
            still_down: owned("PipeWire started but ForgeHX input DSP still cannot reach it"),
        },
        BackendKind::LinuxStandard => ServicePlan::Start {
            probe: ServiceProbe::Wpctl,
            ready: owned("PipeWire/WirePlumber are already reachable"),
            services: pipewire_list(),
            started: owned("PipeWire and WirePlumber started"),
            still_down: owned("PipeWire started but wpctl still cannot reach it"),
        },
        BackendKind::OpenRgb => ServicePlan::Start {
            probe: ServiceProbe::OpenRgb,
            ready: owned("OpenRGB SDK is already reachable"),
            services: openrgb_list(),
            started: owned("OpenRGB compatibility service started"),
            still_down: owned("OpenRGB service started but SDK port 6742 is not reachable"),
        },
        BackendKind::Ratbag => ServicePlan::RatbagDevices {
            prefix: owned("ratbagd D-Bus backend ready ("),
        },
    }
}

/// What restarting a backend takes: nothing for the backends in the
/// daemon; a restart of PipeWire and WirePlumber, or of the OpenRGB
/// service, then the wait for the probe; ratbagd is activated again by
/// asking it for its devices.
pub fn restart_plan(backend: BackendKind) -> (r: ServicePlan)
    ensures
        match backend {
            BackendKind::ForgeHxNative => r matches ServicePlan::InProcess { message: m } && m@
                == "ForgeHX native backend reloads with the daemon"@,
            BackendKind::Diagnostic => r matches ServicePlan::InProcess { message: m } && m@
                == "diagnostic backend does not require restart"@,
            BackendKind::ForgeHxDsp => is_restart(
                r,
                ServiceProbe::Wpctl,
                pipewire_services(),
                "ForgeHX input DSP control plane restarted"@,
                "PipeWire restarted but ForgeHX input DSP still cannot reach it"@,
            ),
            BackendKind::LinuxStandard => is_restart(
                r,
                ServiceProbe::Wpctl,
                pipewire_services(),
                "PipeWire and WirePlumber restarted"@,
                "PipeWire restarted but wpctl still cannot reach it"@,
            ),
            BackendKind::OpenRgb => is_restart(
                r,
                ServiceProbe::OpenRgb,
                openrgb_services(),
                "OpenRGB compatibility service restarted"@,
                openrgb_still_down(),
            ),
            BackendKind::Ratbag => r matches ServicePlan::RatbagDevices { prefix: p } && p@
                == "ratbagd activation requested ("@,
        },
{
    match backend {
        BackendKind::ForgeHxNative => ServicePlan::InProcess {
            message: owned("ForgeHX native backend reloads with the daemon"),
        },
        BackendKind::Diagnostic => ServicePlan::InProcess {
            message: owned("diagnostic backend does not require restart"),
        },
        BackendKind::ForgeHxDsp => ServicePlan::Restart {
            probe: ServiceProbe::Wpctl,
            services: pipewire_list(),
            done: owned("ForgeHX input DSP control plane restarted"),
            still_down: owned("PipeWire restarted but ForgeHX input DSP still cannot reach it"),
        },
        BackendKind::LinuxStandard => ServicePlan::Restart {
            probe: ServiceProbe::Wpctl,
            services: pipewire_list(),
            done: owned("PipeWire and WirePlumber restarted"),
            still_down: owned("PipeWire restarted but wpctl still cannot reach it"),
        },
        BackendKind::OpenRgb => ServicePlan::Restart {
            probe: ServiceProbe::OpenRgb,
            services: openrgb_list(),
            done: owned("OpenRGB compatibility service restarted"),
            still_down: owned("OpenRGB service started but SDK port 6742 is not reachable"),
        },
        BackendKind::Ratbag => ServicePlan::RatbagDevices {
            prefix: owned("ratbagd activation requested ("),
        },
    }
}

/// The backends that ensuring all of them brings up, in order.
pub fn ensure_all_order() -> (r: Vec<BackendKind>)
    ensures
        r@ == seq![BackendKind::LinuxStandard, BackendKind::OpenRgb, BackendKind::Ratbag],
{
    let v = vec![BackendKind::LinuxStandard, BackendKind::OpenRgb, BackendKind::Ratbag];
    assert(v@ =~= seq![BackendKind::LinuxStandard, BackendKind::OpenRgb, BackendKind::Ratbag]);
    v
}

/// The arguments of `systemctl --user <action> <services>...`.
pub fn systemctl_args(action: &str, services: &Vec<String>) -> (r: Vec<String>)
    ensures
        string_views(r@) == seq!["--user"@, action@] + string_views(services@),
{
    let mut out: Vec<String> = vec![owned("--user"), owned(action)];
    let ghost head = seq!["--user"@, action@];
    assert(string_views(out@) =~= head);
    let mut i: usize = 0;
    while i < services.len()
        invariant
            i <= services@.len(),
            string_views(out@) == head + string_views(services@.take(i as int)),
        decreases services@.len() - i,
    {
        let ghost before = out@;
        out.push(owned(services[i].as_str()));
        assert(string_views(out@) =~= string_views(before).push(services@[i as int]@));
        assert(string_views(services@.take(i as int + 1)) =~= string_views(
            services@.take(i as int),
        ).push(services@[i as int]@));
        i = i + 1;
    }
    assert(services@.take(services@.len() as int) == services@);
    out
}

/// The error of a failed `systemctl --user <action>`: what it wrote to
/// standard error, trimmed, or that the action failed where it wrote
/// nothing.
pub fn systemctl_failure(action: &str, stderr: &str) -> (r: BackendError)
    ensures
        r matches BackendError::Io(m) && m@ == (if trim(stderr@).len() == 0 {
            "systemctl --user "@ + action@ + " failed"@
        } else {
            trim(stderr@)
        }),
{
    let t = trim_ws(&str_chars(stderr));
    if t.len() == 0 {
        BackendError::Io(
            string_from(
                &concat(&concat(&str_chars("systemctl --user "), &str_chars(action)), &str_chars(" failed")),
            ),
        )
    } else {
        BackendError::Io(string_from(&t))
    }
}


/// The message of a backend activation: what became ready, joined with
/// `"; "`, or that activation was requested when nothing did; then the notes
/// of what failed.
pub open spec fn ensure_summary_text(ready: Seq<Seq<char>>, errors: Seq<Seq<char>>) -> Seq<char> {
    (if ready.len() == 0 {
        "backend activation requested"@
    } else {
        joined(ready, "; "@)
    }) + (if errors.len() == 0 {
        Seq::empty()
    } else {
        "; notes: "@ + joined(errors, "; "@)
    })
}

pub fn ensure_summary(ready: &Vec<String>, errors: &Vec<String>) -> (r: String)
    ensures
        r@ == ensure_summary_text(
            ready@.map_values(|s: String| s@),
            errors@.map_values(|s: String| s@),
        ),
{
    let head = if ready.len() == 0 {
        str_chars("backend activation requested")
    } else {
        join_strings(ready.as_slice(), "; ")
    };
    let tail = if errors.len() == 0 {
        Vec::new()
    } else {
        concat(&str_chars("; notes: "), &join_strings(errors.as_slice(), "; "))
    };
    proof {
        if errors.len() == 0 {
            assert(tail@ =~= Seq::<char>::empty());
        }
    }
    string_from(&concat(&head, &tail))
}

} // verus!
