//! The daemon's decisions: which backend owns each capability of a device,
//! how a device is projected for an older client, what support level it is
//! reported with, which requests a client may send and how they are framed,
//! where each request is routed, and the steps of applying a profile.
use crate::backends::{
    match_external_index, owner_key, any_candidate, match_external_device, offers, ready_views, select_owner_with_health, selects,
    unique_best, lemma_selection_unique, lemma_unique_best_unique, BackendCandidate, ExternalIdentity, MatchError,
};
use crate::firmware::{
    AdapterSpec, adapter_for, law_registry_is_inventory_only, validate_package, FirmwareRegistry, StagedFirmware,
};
use crate::model::{
    cap_rank, sort_dedup, DeviceId, ForgeHxError, sorted_caps, BackendHealth, BackendStatus, SupportLevel, IPC_MIN_PROTOCOL_VERSION, IPC_PROTOCOL_VERSION, BackendKind, Capability, CapabilityOwner, DeviceClass, DeviceInfo,
    DeviceInterface, KeyBinding, MouseConfig, MouseDeviceState, OwnerView, ConnectionKind, InterfaceSource,
    LightingControllerMetadata, LightingModeMetadata, LightingZoneMetadata, FirmwareIdentity,
    FirmwarePackageInfo, FirmwareValidation,
};
use crate::aetherstream::be32;
use crate::openrgb::OpenRgbProtocolInfo;
use crate::ratbag::RatbagDevice;
use crate::text::{
    alnum_lower, chars_eq, concat, contains, contains_sub, copy_opt, copy_string, dec_str, find,
    find_sub, fmt_dec, fmt_hex, hex_str, lowercase, normalize_alnum, opt_view, owned, parse_bounded,
    parse_num, slice_of, str_chars, string_from, strip_prefix, strip_prefix_spec, to_lowercase, trim,
    trim_ws,
};
use crate::firmware::{join_path, join_path_chars, FirmwareError};
use crate::device::{
    family_of, family_view, interface_from_raw, is_interface_of, nonzero, vendor_family,
    DiscoveredDevice, RawInterface,
};
use crate::order::{
    lemma_text_lt_total, lemma_text_lt_transitive, text_less, text_lt,
    first_index, key_view, key_views, lemma_first_index_is, stable_sort_by_keys, stably_sorted,
};
use crate::backends::BackendError;
use vstd::utf8::encode_utf8;
use vstd::prelude::*;

verus! {

// ------------------------------------------------------------ candidates

/// A candidate owner and whether its backend is ready.
pub type Cand = (OwnerView, bool);

pub open spec fn cand(
    capability: Capability,
    backend: BackendKind,
    id: Option<Seq<char>>,
    verified: bool,
    writable: bool,
    detail: Seq<char>,
    ready: bool,
) -> Cand {
    (
        OwnerView {
            capability,
            backend,
            backend_device_id: id,
            verified,
            writable,
            detail: Some(detail),
        },
        ready,
    )
}

/// The diagnostics owner every device has.
pub open spec fn diagnostics_cand() -> Cand {
    cand(
        Capability::Diagnostics,
        BackendKind::Diagnostic,
        None,
        true,
        false,
        "read-only"@,
        true,
    )
}

/// The native driver's owners: every native capability but diagnostics;
/// battery status is telemetry and read-only.
pub open spec fn native_cands(caps: Seq<Capability>, driver: Seq<char>) -> Seq<Cand>
    decreases caps.len(),
{
    if caps.len() == 0 {
        Seq::empty()
    } else {
        let rest = native_cands(caps.drop_last(), driver);
        let c = caps.last();
        if c == Capability::Diagnostics {
            rest
        } else {
            let writable = c != Capability::BatteryStatus;
            rest.push(
                cand(
                    c,
                    BackendKind::ForgeHxNative,
                    Some(driver),
                    true,
                    writable,
                    if writable {
                        "verified native driver"@
                    } else {
                        "verified native telemetry"@
                    },
                    true,
                ),
            )
        }
    }
}

/// The Linux-standard owners of the generic capabilities.
pub open spec fn linux_cands(caps: Seq<Capability>, node: Option<Seq<char>>, ready: bool) -> Seq<
    Cand,
>
    decreases caps.len(),
{
    if caps.len() == 0 {
        Seq::empty()
    } else {
        let c = caps.last();
        linux_cands(caps.drop_last(), node, ready).push(
            cand(
                c,
                BackendKind::LinuxStandard,
                node,
                true,
                c != Capability::BatteryStatus,
                "Linux standard interface"@,
                ready,
            ),
        )
    }
}

/// The first audio node among the interfaces.
pub open spec fn first_audio_node(ifaces: Seq<DeviceInterface>) -> Option<u32>
    decreases ifaces.len(),
{
    if ifaces.len() == 0 {
        None
    } else {
        match ifaces[0].audio_node_id {
            Some(n) => Some(n),
            None => first_audio_node(ifaces.drop_first()),
        }
    }
}

/// The first audio node among the interfaces that is a capture source.
pub open spec fn first_source_node(ifaces: Seq<DeviceInterface>, sources: Seq<u32>) -> Option<u32>
    decreases ifaces.len(),
{
    if ifaces.len() == 0 {
        None
    } else {
        match ifaces[0].audio_node_id {
            Some(n) => if sources.contains(n) {
                Some(n)
            } else {
                first_source_node(ifaces.drop_first(), sources)
            },
            None => first_source_node(ifaces.drop_first(), sources),
        }
    }
}

pub open spec fn node_text(n: Option<u32>) -> Option<Seq<char>> {
    match n {
        Some(v) => Some(dec_str(v as nat)),
        None => None,
    }
}

/// The input DSP owns the microphone DSP of a HyperX microphone with a
/// capture node.
pub open spec fn dsp_cands(info: DeviceInfo, sources: Seq<u32>, ready: bool) -> Seq<Cand> {
    if info.vendor_family is HyperX && info.device_class == DeviceClass::Microphone {
        match first_source_node(info.interfaces@, sources) {
            Some(n) => seq![
                cand(
                    Capability::MicDsp,
                    BackendKind::ForgeHxDsp,
                    Some(dec_str(n as nat)),
                    true,
                    true,
                    "input-only PipeWire capture graph"@,
                    ready,
                ),
            ],
            None => Seq::empty(),
        }
    } else {
        Seq::empty()
    }
}

/// Firmware inventory for a microphone with an adapter; update and recovery
/// only where the adapter's support level allows them.
pub open spec fn firmware_cands(info: DeviceInfo) -> Seq<Cand> {
    match adapter_for(info) {
        None => Seq::empty(),
        Some(a) => seq![
            cand(
                Capability::MicFirmwareInventory,
                BackendKind::ForgeHxNative,
                Some(a.id),
                a.exact_hardware_match,
                false,
                if a.exact_hardware_match {
                    "exact HyperX microphone firmware inventory"@
                } else {
                    "HyperX microphone model inventory only"@
                },
                true,
            ),
        ] + (if a.support_level.spec_can_update() {
            seq![
                cand(
                    Capability::MicFirmwareUpdate,
                    BackendKind::ForgeHxNative,
                    Some(a.id),
                    true,
                    true,
                    "verified model-specific firmware updater"@,
                    true,
                ),
            ]
        } else {
            Seq::empty()
        }) + (if a.support_level.spec_can_recover() {
            seq![
                cand(
                    Capability::MicFirmwareRecovery,
                    BackendKind::ForgeHxNative,
                    Some(a.id),
                    true,
                    true,
                    "verified model-specific firmware recovery"@,
                    true,
                ),
            ]
        } else {
            Seq::empty()
        }),
    }
}

/// The entry that `match_external_device` chooses, when there is one.
pub open spec fn matched(info: DeviceInfo, ext: Seq<ExternalIdentity>) -> int {
    choose|i: int| unique_best(info, ext, i)
}

/// OpenRGB owns lighting on a deterministic match; an ambiguous match is
/// recorded, never ready.
pub open spec fn lighting_cands(info: DeviceInfo, ext: Seq<ExternalIdentity>, ready: bool) -> Seq<
    Cand,
> {
    if exists|i: int| unique_best(info, ext, i) {
        seq![
            cand(
                Capability::Lighting,
                BackendKind::OpenRgb,
                Some(ext[matched(info, ext)].id@),
                true,
                true,
                "deterministic OpenRGB match"@,
                ready,
            ),
        ]
    } else if any_candidate(info, ext) {
        seq![
            cand(
                Capability::Lighting,
                BackendKind::OpenRgb,
                None,
                false,
                false,
                "ambiguous OpenRGB match"@,
                false,
            ),
        ]
    } else {
        Seq::empty()
    }
}

pub open spec fn has_buttons(s: MouseDeviceState) -> bool {
    match s.button_count {
        Some(n) => n > 0,
        None => false,
    }
}

pub open spec fn ratbag_cand(c: Capability, id: Seq<char>, detail: Seq<char>, ready: bool) -> Cand {
    cand(c, BackendKind::Ratbag, Some(id), true, true, detail, ready)
}

/// ratbagd owns what the state of the matched mouse reports: resolutions,
/// report rate, profiles and, with buttons, bindings and macros.
pub open spec fn ratbag_cands(
    info: DeviceInfo,
    ext: Seq<ExternalIdentity>,
    state: Option<MouseDeviceState>,
    ready: bool,
) -> Seq<Cand> {
    if exists|i: int| unique_best(info, ext, i) {
        let id = ext[matched(info, ext)].id@;
        match state {
            None => Seq::empty(),
            Some(s) => (if s.dpi_stages@.len() > 0 {
                seq![ratbag_cand(Capability::Dpi, id, "ratbagd resolution"@, ready)]
            } else {
                Seq::empty()
            }) + (if s.report_rate_hz is Some {
                seq![ratbag_cand(Capability::PollingRate, id, "ratbagd report rate"@, ready)]
            } else {
                Seq::empty()
            }) + (if s.active_profile is Some {
                seq![ratbag_cand(Capability::Profiles, id, "ratbagd profiles"@, ready)]
            } else {
                Seq::empty()
            }) + (if has_buttons(s) {
                seq![
                    ratbag_cand(Capability::Bindings, id, "ratbagd button actions"@, ready),
                    ratbag_cand(Capability::MacroAssignments, id, "ratbagd button actions"@, ready),
                ]
            } else {
                Seq::empty()
            }),
        }
    } else {
        Seq::empty()
    }
}

/// Everything that may own a capability of the device, in the order the
/// daemon considers it.
pub open spec fn all_cands(
    info: DeviceInfo,
    sources: Seq<u32>,
    linux_ready: bool,
    openrgb_ready: bool,
    openrgb: Seq<ExternalIdentity>,
    ratbag_ready: bool,
    ratbag: Seq<ExternalIdentity>,
    ratbag_state: Option<MouseDeviceState>,
) -> Seq<Cand> {
    seq![diagnostics_cand()] + (match info.protocol {
        Some(p) => native_cands(info.capabilities@, p@),
        None => Seq::empty(),
    }) + linux_cands(
        info.generic_capabilities@,
        node_text(first_audio_node(info.interfaces@)),
        linux_ready,
    ) + dsp_cands(info, sources, linux_ready) + firmware_cands(info) + lighting_cands(
        info,
        openrgb,
        openrgb_ready,
    ) + ratbag_cands(info, ratbag, ratbag_state, ratbag_ready)
}

/// The owners of the candidates whose backend is ready.
pub open spec fn ready_of(s: Seq<Cand>) -> Seq<OwnerView>
    decreases s.len(),
{
    if s.len() == 0 {
        Seq::empty()
    } else if s.last().1 {
        ready_of(s.drop_last()).push(s.last().0)
    } else {
        ready_of(s.drop_last())
    }
}

pub open spec fn cand_views(c: Seq<BackendCandidate>) -> Seq<Cand> {
    c.map_values(|b: BackendCandidate| (b.owner@, b.health is Ready))
}

proof fn lemma_ready_views(c: Seq<BackendCandidate>)
    ensures
        ready_views(c) == ready_of(cand_views(c)),
    decreases c.len(),
{
    if c.len() > 0 {
        lemma_ready_views(c.drop_last());
        assert(cand_views(c).drop_last() =~= cand_views(c.drop_last()));
    }
}

/// Every capability, in declaration order.
pub open spec fn all_caps() -> Seq<Capability> {
    seq![
        Capability::Diagnostics,
        Capability::Lighting,
        Capability::Dpi,
        Capability::PollingRate,
        Capability::Profiles,
        Capability::Bindings,
        Capability::MacroAssignments,
        Capability::Audio,
        Capability::Microphone,
        Capability::MicDsp,
        Capability::MicFirmwareInventory,
        Capability::MicFirmwareUpdate,
        Capability::MicFirmwareRecovery,
        Capability::Eq,
        Capability::AudioRouting,
        Capability::BatteryStatus,
        Capability::Volume,
        Capability::Mute,
    ]
}

/// The index `select_owner` chooses for `cap` among `s`.
pub open spec fn pick(s: Seq<OwnerView>, cap: Capability) -> int {
    choose|i: int| selects(s, cap, i)
}

/// One owner per capability that a ready candidate offers, in the order of
/// `caps`: the one `select_owner` chooses.
pub open spec fn chosen(ready: Seq<OwnerView>, caps: Seq<Capability>) -> Seq<OwnerView>
    decreases caps.len(),
{
    if caps.len() == 0 {
        Seq::empty()
    } else {
        let rest = chosen(ready, caps.drop_last());
        let c = caps.last();
        if offers(ready, c) {
            rest.push(ready[pick(ready, c)])
        } else {
            rest
        }
    }
}

fn all_capabilities() -> (r: Vec<Capability>)
    ensures
        r@ == all_caps(),
{
    let r = vec![
        Capability::Diagnostics,
        Capability::Lighting,
        Capability::Dpi,
        Capability::PollingRate,
        Capability::Profiles,
        Capability::Bindings,
        Capability::MacroAssignments,
        Capability::Audio,
        Capability::Microphone,
        Capability::MicDsp,
        Capability::MicFirmwareInventory,
        Capability::MicFirmwareUpdate,
        Capability::MicFirmwareRecovery,
        Capability::Eq,
        Capability::AudioRouting,
        Capability::BatteryStatus,
        Capability::Volume,
        Capability::Mute,
    ];
    assert(r@ =~= all_caps());
    r
}

pub open spec fn owner_views_of(v: Seq<CapabilityOwner>) -> Seq<OwnerView> {
    v.map_values(|o: CapabilityOwner| o@)
}

/// For each capability in declaration order, the owner chosen among the
/// ready candidates.
pub fn owners_for(candidates: &Vec<BackendCandidate>) -> (r: Vec<CapabilityOwner>)
    ensures
        owner_views_of(r@) == chosen(ready_of(cand_views(candidates@)), all_caps()),
{
    proof {
        lemma_ready_views(candidates@);
    }
    let ghost ready = ready_of(cand_views(candidates@));
    let caps = all_capabilities();
    let mut out: Vec<CapabilityOwner> = Vec::new();
    let mut i: usize = 0;
    while i < caps.len()
        invariant
            i <= caps@.len(),
            caps@ == all_caps(),
            ready == ready_views(candidates@),
            owner_views_of(out@) == chosen(ready, caps@.take(i as int)),
        decreases caps@.len() - i,
    {
        let c = caps[i];
        let ghost before = out@;
        assert(caps@.take(i as int + 1).drop_last() == caps@.take(i as int));
        assert(caps@.take(i as int + 1).last() == c);
        match select_owner_with_health(c, candidates.as_slice()) {
            Some(o) => {
                proof {
                    let k = choose|k: int| selects(ready, c, k) && o@ == ready[k];
                    lemma_selection_unique(ready, c, k, pick(ready, c));
                }
                out.push(o);
                assert(owner_views_of(out@) =~= owner_views_of(before).push(o@));
            },
            None => {},
        }
        i = i + 1;
    }
    assert(caps@.take(caps@.len() as int) == caps@);
    out
}

// ------------------------------------------------------------ ownership laws

/// Where a candidate offers `cap`, one of them is chosen.
pub proof fn lemma_selection_exists(s: Seq<OwnerView>, cap: Capability)
    requires
        offers(s, cap),
    ensures
        exists|i: int| selects(s, cap, i),
    decreases s.len(),
{
    let t = s.drop_last();
    let n = s.len() - 1;
    if offers(t, cap) {
        lemma_selection_exists(t, cap);
        let i = choose|i: int| selects(t, cap, i);
        assert(t[i] == s[i]);
        if s[n].capability == cap && owner_key(s[n]) < owner_key(t[i]) {
            assert forall|j: int| 0 <= j < s.len() && #[trigger] s[j].capability == cap implies owner_key(
                s[n],
            ) <= owner_key(s[j]) by {
                if j < n {
                    assert(t[j] == s[j]);
                }
            }
            assert forall|j: int| 0 <= j < n && #[trigger] s[j].capability == cap implies owner_key(
                s[n],
            ) < owner_key(s[j]) by {
                assert(t[j] == s[j]);
            }
            assert(selects(s, cap, n));
        } else {
            assert forall|j: int| 0 <= j < s.len() && #[trigger] s[j].capability == cap implies owner_key(
                s[i],
            ) <= owner_key(s[j]) by {
                if j < n {
                    assert(t[j] == s[j]);
                }
            }
            assert forall|j: int| 0 <= j < i && #[trigger] s[j].capability == cap implies owner_key(s[i])
                < owner_key(s[j]) by {
                assert(t[j] == s[j]);
            }
            assert(selects(s, cap, i));
        }
    } else {
        let w = choose|w: int| 0 <= w < s.len() && #[trigger] s[w].capability == cap;
        if w < n {
            assert(t[w] == s[w]);
        }
        assert forall|j: int| 0 <= j < n implies #[trigger] s[j].capability != cap by {
            assert(t[j] == s[j]);
        }
        assert(selects(s, cap, n));
    }
}

/// Some owner in `owners` is for `cap`.
pub open spec fn owns(owners: Seq<OwnerView>, cap: Capability) -> bool {
    exists|k: int| 0 <= k < owners.len() && #[trigger] owners[k].capability == cap
}

proof fn lemma_chosen(ready: Seq<OwnerView>, caps: Seq<Capability>)
    ensures
        forall|k: int|
            0 <= k < chosen(ready, caps).len() ==> exists|i: int|
                selects(ready, (#[trigger] chosen(ready, caps)[k]).capability, i) && chosen(ready, caps)[k]
                    == ready[i],
        forall|k: int|
            0 <= k < chosen(ready, caps).len() ==> caps.contains(
                (#[trigger] chosen(ready, caps)[k]).capability,
            ),
        forall|c: Capability| caps.contains(c) && offers(ready, c) ==> owns(chosen(ready, caps), c),
        forall|c: Capability| owns(chosen(ready, caps), c) ==> offers(ready, c),
    decreases caps.len(),
{
    if caps.len() > 0 {
        let d = caps.drop_last();
        let c = caps.last();
        lemma_chosen(ready, d);
        let prev = chosen(ready, d);
        let cur = chosen(ready, caps);
        if offers(ready, c) {
            lemma_selection_exists(ready, c);
            let i = choose|i: int| selects(ready, c, i);
            lemma_selection_unique(ready, c, i, pick(ready, c));
        }
        assert forall|k: int| 0 <= k < cur.len() implies exists|i: int|
            selects(ready, (#[trigger] cur[k]).capability, i) && cur[k] == ready[i] by {
            if k < prev.len() {
                assert(cur[k] == prev[k]);
            } else {
                assert(selects(ready, c, pick(ready, c)));
            }
        }
        assert forall|k: int| 0 <= k < cur.len() implies caps.contains((#[trigger] cur[k]).capability) by {
            if k < prev.len() {
                assert(cur[k] == prev[k]);
                let j = choose|j: int| 0 <= j < d.len() && d[j] == prev[k].capability;
                assert(caps[j] == d[j]);
            } else {
                assert(caps[caps.len() - 1] == c);
            }
        }
        assert forall|x: Capability| caps.contains(x) && offers(ready, x) implies owns(cur, x) by {
            let j = choose|j: int| 0 <= j < caps.len() && caps[j] == x;
            if j < d.len() {
                assert(d[j] == x);
                let k = choose|k: int| 0 <= k < prev.len() && #[trigger] prev[k].capability == x;
                assert(cur[k] == prev[k]);
            } else {
                assert(cur[cur.len() - 1].capability == x);
            }
        }
        assert forall|x: Capability| owns(cur, x) implies offers(ready, x) by {
            let k = choose|k: int| 0 <= k < cur.len() && #[trigger] cur[k].capability == x;
            if k < prev.len() {
                assert(cur[k] == prev[k]);
            }
        }
    }
}

proof fn lemma_chosen_sorted(ready: Seq<OwnerView>, caps: Seq<Capability>)
    requires
        forall|i: int, j: int| 0 <= i < j < caps.len() ==> cap_rank(caps[i]) < cap_rank(caps[j]),
    ensures
        forall|k1: int, k2: int|
            0 <= k1 < k2 < chosen(ready, caps).len() ==> cap_rank(
                (#[trigger] chosen(ready, caps)[k1]).capability,
            ) < cap_rank((#[trigger] chosen(ready, caps)[k2]).capability),
    decreases caps.len(),
{
    if caps.len() > 0 {
        let d = caps.drop_last();
        lemma_chosen_sorted(ready, d);
        lemma_chosen(ready, d);
        let prev = chosen(ready, d);
        let cur = chosen(ready, caps);
        if offers(ready, caps.last()) {
            lemma_selection_exists(ready, caps.last());
        }
        assert forall|k1: int, k2: int| 0 <= k1 < k2 < cur.len() implies cap_rank(
            (#[trigger] cur[k1]).capability,
        ) < cap_rank((#[trigger] cur[k2]).capability) by {
            assert(cur[k1] == prev[k1]);
            if k2 < prev.len() {
                assert(cur[k2] == prev[k2]);
            } else {
                assert(d.contains(prev[k1].capability));
                let j = choose|j: int| 0 <= j < d.len() && d[j] == prev[k1].capability;
                assert(caps[j] == d[j]);
            }
        }
    }
}

proof fn lemma_all_caps_ranked()
    ensures
        forall|i: int, j: int| 0 <= i < j < all_caps().len() ==> cap_rank(all_caps()[i]) < cap_rank(
            all_caps()[j],
        ),
{
    assert forall|i: int| 0 <= i < all_caps().len() implies cap_rank(#[trigger] all_caps()[i]) == i by {
    }
}

/// Every owner is one of the ready candidates, and no ready candidate for
/// its capability ranks better: native drivers first, then the input DSP,
/// Linux-standard interfaces, the compatibility backends and diagnostics;
/// writable before read-only, verified before unverified.
pub proof fn law_owner_is_best_ready_candidate(ready: Seq<OwnerView>)
    ensures
        forall|k: int|
            0 <= k < chosen(ready, all_caps()).len() ==> {
                let o = #[trigger] chosen(ready, all_caps())[k];
                &&& ready.contains(o)
                &&& forall|j: int|
                    0 <= j < ready.len() && ready[j].capability == o.capability ==> owner_key(o)
                        <= owner_key(ready[j])
            },
{
    lemma_chosen(ready, all_caps());
    assert forall|k: int| 0 <= k < chosen(ready, all_caps()).len() implies {
        let o = #[trigger] chosen(ready, all_caps())[k];
        &&& ready.contains(o)
        &&& forall|j: int|
            0 <= j < ready.len() && ready[j].capability == o.capability ==> owner_key(o) <= owner_key(
                ready[j],
            )
    } by {
        let o = chosen(ready, all_caps())[k];
        let i = choose|i: int| selects(ready, o.capability, i) && o == ready[i];
        assert forall|j: int| 0 <= j < ready.len() && ready[j].capability == o.capability implies owner_key(
            o,
        ) <= owner_key(ready[j]) by {
            assert(ready[j].capability == o.capability);
        }
    }
}

/// Exactly the capabilities that some ready candidate offers have an
/// owner, each one owner, in declaration order.
pub proof fn law_one_owner_per_offered_capability(ready: Seq<OwnerView>)
    ensures
        forall|c: Capability| owns(chosen(ready, all_caps()), c) <==> offers(ready, c),
        forall|k1: int, k2: int|
            0 <= k1 < k2 < chosen(ready, all_caps()).len() ==> cap_rank(
                (#[trigger] chosen(ready, all_caps())[k1]).capability,
            ) < cap_rank((#[trigger] chosen(ready, all_caps())[k2]).capability),
{
    lemma_chosen(ready, all_caps());
    lemma_all_caps_ranked();
    lemma_chosen_sorted(ready, all_caps());
    assert forall|c: Capability| offers(ready, c) implies owns(chosen(ready, all_caps()), c) by {
        assert(all_caps()[cap_rank(c) as int] == c);
    }
}

/// A capability that a ready native driver offers is owned by a native
/// driver, whatever compatibility backend also offers it.
pub proof fn law_native_owner_beats_compatibility(ready: Seq<OwnerView>, c: Capability)
    requires
        exists|i: int|
            0 <= i < ready.len() && #[trigger] ready[i].capability == c && ready[i].backend
                == BackendKind::ForgeHxNative,
    ensures
        exists|k: int|
            0 <= k < chosen(ready, all_caps()).len() && #[trigger] chosen(ready, all_caps())[k].capability
                == c && chosen(ready, all_caps())[k].backend == BackendKind::ForgeHxNative,
{
    let i = choose|i: int|
        0 <= i < ready.len() && #[trigger] ready[i].capability == c && ready[i].backend
            == BackendKind::ForgeHxNative;
    law_one_owner_per_offered_capability(ready);
    law_owner_is_best_ready_candidate(ready);
    assert(offers(ready, c));
    let k = choose|k: int|
        0 <= k < chosen(ready, all_caps()).len() && #[trigger] chosen(ready, all_caps())[k].capability
            == c;
    let o = chosen(ready, all_caps())[k];
    assert(owner_key(o) <= owner_key(ready[i]));
}

/// The candidates for backend `b` are ready only where `flag` holds.
pub open spec fn ready_only_if(s: Seq<Cand>, b: BackendKind, flag: bool) -> bool {
    forall|i: int| 0 <= i < s.len() && #[trigger] s[i].0.backend == b && s[i].1 ==> flag
}

proof fn lemma_ready_only_if_add(a: Seq<Cand>, c: Seq<Cand>, b: BackendKind, flag: bool)
    requires
        ready_only_if(a, b, flag),
        ready_only_if(c, b, flag),
    ensures
        ready_only_if(a + c, b, flag),
{
    assert forall|i: int| 0 <= i < (a + c).len() && #[trigger] (a + c)[i].0.backend == b && (a
        + c)[i].1 implies flag by {
        if i >= a.len() {
            assert((a + c)[i] == c[i - a.len()]);
        }
    }
}

/// `o` is the owner of a ready candidate of `s`.
pub open spec fn ready_member(s: Seq<Cand>, o: OwnerView) -> bool {
    exists|i: int| 0 <= i < s.len() && s[i].1 && s[i].0 == o
}

proof fn lemma_ready_of_members(s: Seq<Cand>)
    ensures
        forall|k: int| 0 <= k < ready_of(s).len() ==> ready_member(s, #[trigger] ready_of(s)[k]),
    decreases s.len(),
{
    if s.len() > 0 {
        let t = s.drop_last();
        lemma_ready_of_members(t);
        let prev = ready_of(t);
        assert forall|k: int| 0 <= k < ready_of(s).len() implies ready_member(s, #[trigger] ready_of(s)[k]) by {
            if k < prev.len() {
                assert(ready_of(s)[k] == prev[k]);
                assert(ready_member(t, prev[k]));
                let i = choose|i: int| 0 <= i < t.len() && t[i].1 && t[i].0 == prev[k];
                assert(s[i] == t[i]);
            } else {
                assert(s.last().1);
                assert(ready_of(s)[k] == s.last().0);
                assert(s[s.len() - 1] == s.last());
            }
        }
    }
}

/// A backend none of whose candidates is ready owns nothing.
pub proof fn law_unready_backend_never_owns(cands: Seq<Cand>, b: BackendKind)
    requires
        ready_only_if(cands, b, false),
    ensures
        forall|k: int|
            0 <= k < chosen(ready_of(cands), all_caps()).len() ==> (#[trigger] chosen(
                ready_of(cands),
                all_caps(),
            )[k]).backend != b,
{
    let ready = ready_of(cands);
    law_owner_is_best_ready_candidate(ready);
    lemma_ready_of_members(cands);
    assert forall|k: int| 0 <= k < chosen(ready, all_caps()).len() implies (#[trigger] chosen(
        ready,
        all_caps(),
    )[k]).backend != b by {
        let o = chosen(ready, all_caps())[k];
        let m = choose|m: int| 0 <= m < ready.len() && ready[m] == o;
        assert(ready_member(cands, ready[m]));
    }
}

proof fn lemma_native_cands(caps: Seq<Capability>, driver: Seq<char>)
    ensures
        forall|i: int|
            0 <= i < native_cands(caps, driver).len() ==> (#[trigger] native_cands(caps, driver)[i]).0.backend
                == BackendKind::ForgeHxNative,
    decreases caps.len(),
{
    if caps.len() > 0 {
        lemma_native_cands(caps.drop_last(), driver);
    }
}

proof fn lemma_linux_cands(caps: Seq<Capability>, node: Option<Seq<char>>, ready: bool)
    ensures
        forall|i: int|
            0 <= i < linux_cands(caps, node, ready).len() ==> (#[trigger] linux_cands(caps, node, ready)[i]).0.backend
                == BackendKind::LinuxStandard && linux_cands(caps, node, ready)[i].1 == ready,
    decreases caps.len(),
{
    if caps.len() > 0 {
        lemma_linux_cands(caps.drop_last(), node, ready);
    }
}

/// The backends whose readiness a check is about, with the flag that
/// tells whether each is ready.
pub open spec fn readiness_case(
    b: BackendKind,
    flag: bool,
    linux_ready: bool,
    openrgb_ready: bool,
    ratbag_ready: bool,
) -> bool {
    &&& b == BackendKind::OpenRgb ==> flag == openrgb_ready
    &&& b == BackendKind::Ratbag ==> flag == ratbag_ready
    &&& (b == BackendKind::LinuxStandard || b == BackendKind::ForgeHxDsp) ==> flag == linux_ready
    &&& (b == BackendKind::OpenRgb || b == BackendKind::Ratbag || b == BackendKind::LinuxStandard
        || b == BackendKind::ForgeHxDsp)
}

proof fn lemma_firmware_ready(info: DeviceInfo, b: BackendKind, flag: bool)
    requires
        b != BackendKind::ForgeHxNative,
    ensures
        ready_only_if(firmware_cands(info), b, flag),
{
}

proof fn lemma_lighting_ready(info: DeviceInfo, ext: Seq<ExternalIdentity>, ready: bool, b: BackendKind, flag: bool)
    requires
        b == BackendKind::OpenRgb ==> flag == ready,
    ensures
        ready_only_if(lighting_cands(info, ext, ready), b, flag),
{
}

#[verifier::spinoff_prover]
proof fn lemma_ratbag_ready(
    info: DeviceInfo,
    ext: Seq<ExternalIdentity>,
    state: Option<MouseDeviceState>,
    ready: bool,
    b: BackendKind,
    flag: bool,
)
    requires
        b == BackendKind::Ratbag ==> flag == ready,
    ensures
        ready_only_if(ratbag_cands(info, ext, state, ready), b, flag),
{
    let r = ratbag_cands(info, ext, state, ready);
    assert forall|i: int| 0 <= i < r.len() && #[trigger] r[i].0.backend == b && r[i].1 implies flag by {
        assert(r[i].0.backend == BackendKind::Ratbag && r[i].1 == ready);
    }
}

/// The candidates of each backend are ready only where that backend is:
/// OpenRGB, ratbagd, and the Linux-standard interfaces with the input DSP.
#[verifier::spinoff_prover]
proof fn lemma_all_cands_ready(
    info: DeviceInfo,
    sources: Seq<u32>,
    linux_ready: bool,
    openrgb_ready: bool,
    openrgb: Seq<ExternalIdentity>,
    ratbag_ready: bool,
    ratbag: Seq<ExternalIdentity>,
    state: Option<MouseDeviceState>,
    b: BackendKind,
    flag: bool,
)
    requires
        readiness_case(b, flag, linux_ready, openrgb_ready, ratbag_ready),
    ensures
        ready_only_if(
            all_cands(info, sources, linux_ready, openrgb_ready, openrgb, ratbag_ready, ratbag, state),
            b,
            flag,
        ),
{
    let native = match info.protocol {
        Some(p) => native_cands(info.capabilities@, p@),
        None => Seq::empty(),
    };
    assert(ready_only_if(native, b, flag)) by {
        if let Some(p) = info.protocol {
            lemma_native_cands(info.capabilities@, p@);
        }
    }
    let node = node_text(first_audio_node(info.interfaces@));
    let a = seq![diagnostics_cand()];
    let l = linux_cands(info.generic_capabilities@, node, linux_ready);
    let d = dsp_cands(info, sources, linux_ready);
    let f = firmware_cands(info);
    let g = lighting_cands(info, openrgb, openrgb_ready);
    let r = ratbag_cands(info, ratbag, state, ratbag_ready);
    assert(ready_only_if(a, b, flag));
    assert(ready_only_if(l, b, flag)) by {
        lemma_linux_cands(info.generic_capabilities@, node, linux_ready);
    }
    assert(ready_only_if(d, b, flag));
    lemma_firmware_ready(info, b, flag);
    lemma_lighting_ready(info, openrgb, openrgb_ready, b, flag);
    lemma_ratbag_ready(info, ratbag, state, ratbag_ready, b, flag);
    lemma_ready_only_if_add(a, native, b, flag);
    lemma_ready_only_if_add(a + native, l, b, flag);
    lemma_ready_only_if_add(a + native + l, d, b, flag);
    lemma_ready_only_if_add(a + native + l + d, f, b, flag);
    lemma_ready_only_if_add(a + native + l + d + f, g, b, flag);
    lemma_ready_only_if_add(a + native + l + d + f + g, r, b, flag);
}

/// While OpenRGB is not ready it owns nothing, lighting included; the same
/// holds of ratbagd, and of the Linux-standard interfaces and the input DSP
/// while PipeWire is not.
pub proof fn law_unavailable_backends_never_own(
    info: DeviceInfo,
    sources: Seq<u32>,
    linux_ready: bool,
    openrgb_ready: bool,
    openrgb: Seq<ExternalIdentity>,
    ratbag_ready: bool,
    ratbag: Seq<ExternalIdentity>,
    state: Option<MouseDeviceState>,
)
    ensures
        ({
            let owners = chosen(
                ready_of(
                    all_cands(info, sources, linux_ready, openrgb_ready, openrgb, ratbag_ready, ratbag, state),
                ),
                all_caps(),
            );
            &&& !openrgb_ready ==> forall|k: int|
                0 <= k < owners.len() ==> (#[trigger] owners[k]).backend != BackendKind::OpenRgb
            &&& !ratbag_ready ==> forall|k: int|
                0 <= k < owners.len() ==> (#[trigger] owners[k]).backend != BackendKind::Ratbag
            &&& !linux_ready ==> forall|k: int|
                0 <= k < owners.len() ==> (#[trigger] owners[k]).backend != BackendKind::LinuxStandard
                    && owners[k].backend != BackendKind::ForgeHxDsp
        }),
{
    let cands = all_cands(info, sources, linux_ready, openrgb_ready, openrgb, ratbag_ready, ratbag, state);
    if !openrgb_ready {
        lemma_all_cands_ready(info, sources, linux_ready, openrgb_ready, openrgb, ratbag_ready, ratbag, state, BackendKind::OpenRgb, false);
        law_unready_backend_never_owns(cands, BackendKind::OpenRgb);
    }
    if !ratbag_ready {
        lemma_all_cands_ready(info, sources, linux_ready, openrgb_ready, openrgb, ratbag_ready, ratbag, state, BackendKind::Ratbag, false);
        law_unready_backend_never_owns(cands, BackendKind::Ratbag);
    }
    if !linux_ready {
        lemma_all_cands_ready(info, sources, linux_ready, openrgb_ready, openrgb, ratbag_ready, ratbag, state, BackendKind::LinuxStandard, false);
        law_unready_backend_never_owns(cands, BackendKind::LinuxStandard);
        lemma_all_cands_ready(info, sources, linux_ready, openrgb_ready, openrgb, ratbag_ready, ratbag, state, BackendKind::ForgeHxDsp, false);
        law_unready_backend_never_owns(cands, BackendKind::ForgeHxDsp);
    }
}

/// Every ForgeHX Native owner among `s` is read-only.
pub open spec fn native_read_only(s: Seq<OwnerView>) -> bool {
    forall|i: int| 0 <= i < s.len() && #[trigger] s[i].backend == BackendKind::ForgeHxNative ==> !s[i].writable
}

pub open spec fn cands_native_read_only(s: Seq<Cand>) -> bool {
    forall|i: int| 0 <= i < s.len() && (#[trigger] s[i]).0.backend == BackendKind::ForgeHxNative ==> !s[i].0.writable
}

proof fn lemma_linux_cands_are_linux(caps: Seq<Capability>, node: Option<Seq<char>>, ready: bool)
    ensures
        forall|i: int| 0 <= i < linux_cands(caps, node, ready).len() ==> (#[trigger] linux_cands(caps, node, ready)[i]).0.backend
            == BackendKind::LinuxStandard,
    decreases caps.len(),
{
    if caps.len() > 0 {
        lemma_linux_cands_are_linux(caps.drop_last(), node, ready);
    }
}

proof fn lemma_ready_of_keeps_read_only(s: Seq<Cand>)
    requires
        cands_native_read_only(s),
    ensures
        native_read_only(ready_of(s)),
    decreases s.len(),
{
    if s.len() > 0 {
        let t = s.drop_last();
        assert forall|i: int| 0 <= i < t.len() && (#[trigger] t[i]).0.backend == BackendKind::ForgeHxNative implies !t[i].0.writable by {
            assert(t[i] == s[i]);
        }
        lemma_ready_of_keeps_read_only(t);
        assert(s.last() == s[s.len() - 1]);
    }
}

/// Raw vendor writes need a verified native driver: a device without one
/// gets no writable ForgeHX Native owner, whatever the other backends offer.
pub proof fn law_no_driver_no_native_writes(
    info: DeviceInfo,
    sources: Seq<u32>,
    linux_ready: bool,
    openrgb_ready: bool,
    openrgb: Seq<ExternalIdentity>,
    ratbag_ready: bool,
    ratbag: Seq<ExternalIdentity>,
    ratbag_state: Option<MouseDeviceState>,
)
    requires
        info.protocol is None,
    ensures
        native_read_only(
            chosen(
                ready_of(
                    all_cands(info, sources, linux_ready, openrgb_ready, openrgb, ratbag_ready, ratbag, ratbag_state),
                ),
                all_caps(),
            ),
        ),
{
    let cands = all_cands(info, sources, linux_ready, openrgb_ready, openrgb, ratbag_ready, ratbag, ratbag_state);
    let linux = linux_cands(
        info.generic_capabilities@,
        node_text(first_audio_node(info.interfaces@)),
        linux_ready,
    );
    let dsp = dsp_cands(info, sources, linux_ready);
    let fw = firmware_cands(info);
    let light = lighting_cands(info, openrgb, openrgb_ready);
    let rat = ratbag_cands(info, ratbag, ratbag_state, ratbag_ready);
    lemma_linux_cands_are_linux(
        info.generic_capabilities@,
        node_text(first_audio_node(info.interfaces@)),
        linux_ready,
    );
    law_registry_is_inventory_only(info);
    assert(cands == seq![diagnostics_cand()] + Seq::<Cand>::empty() + linux + dsp + fw + light + rat);
    assert forall|i: int| 0 <= i < cands.len() && (#[trigger] cands[i]).0.backend == BackendKind::ForgeHxNative implies !cands[i].0.writable by {
        let n0 = 1 + linux.len();
        let n1 = n0 + dsp.len();
        let n2 = n1 + fw.len();
        let n3 = n2 + light.len();
        if i == 0 {
        } else if i < n0 {
            assert(cands[i] == linux[i - 1]);
        } else if i < n1 {
            assert(cands[i] == dsp[i - n0]);
        } else if i < n2 {
            assert(cands[i] == fw[i - n1]);
        } else if i < n3 {
            assert(cands[i] == light[i - n2]);
        } else {
            assert(cands[i] == rat[i - n3]);
        }
    }
    lemma_ready_of_keeps_read_only(cands);
    let ready = ready_of(cands);
    lemma_chosen(ready, all_caps());
    let picked = chosen(ready, all_caps());
    assert forall|k: int| 0 <= k < picked.len() && #[trigger] picked[k].backend == BackendKind::ForgeHxNative implies !picked[k].writable by {
        let i = choose|i: int| selects(ready, picked[k].capability, i) && picked[k] == ready[i];
        assert(ready[i].backend == BackendKind::ForgeHxNative);
    }
}

/// Every ForgeHX Native candidate among `s` is for a firmware capability.
pub open spec fn cands_native_firmware(s: Seq<Cand>) -> bool {
    forall|i: int|
        0 <= i < s.len() && (#[trigger] s[i]).0.backend == BackendKind::ForgeHxNative ==> firmware_cap(
            s[i].0.capability,
        )
}

proof fn lemma_firmware_cands_are_firmware(info: DeviceInfo)
    ensures
        cands_native_firmware(firmware_cands(info)),
{
}

#[verifier::spinoff_prover]
proof fn lemma_no_driver_cands_native_firmware(
    info: DeviceInfo,
    sources: Seq<u32>,
    linux_ready: bool,
    openrgb_ready: bool,
    openrgb: Seq<ExternalIdentity>,
    ratbag_ready: bool,
    ratbag: Seq<ExternalIdentity>,
    ratbag_state: Option<MouseDeviceState>,
)
    requires
        info.protocol is None,
    ensures
        cands_native_firmware(
            all_cands(info, sources, linux_ready, openrgb_ready, openrgb, ratbag_ready, ratbag, ratbag_state),
        ),
{
    let cands = all_cands(info, sources, linux_ready, openrgb_ready, openrgb, ratbag_ready, ratbag, ratbag_state);
    let linux = linux_cands(
        info.generic_capabilities@,
        node_text(first_audio_node(info.interfaces@)),
        linux_ready,
    );
    let dsp = dsp_cands(info, sources, linux_ready);
    let fw = firmware_cands(info);
    let light = lighting_cands(info, openrgb, openrgb_ready);
    let rat = ratbag_cands(info, ratbag, ratbag_state, ratbag_ready);
    lemma_linux_cands_are_linux(
        info.generic_capabilities@,
        node_text(first_audio_node(info.interfaces@)),
        linux_ready,
    );
    lemma_firmware_cands_are_firmware(info);
    assert(cands == seq![diagnostics_cand()] + Seq::<Cand>::empty() + linux + dsp + fw + light + rat);
    assert forall|i: int| 0 <= i < cands.len() && (#[trigger] cands[i]).0.backend
        == BackendKind::ForgeHxNative implies firmware_cap(cands[i].0.capability) by {
        let n0 = 1 + linux.len();
        let n1 = n0 + dsp.len();
        let n2 = n1 + fw.len();
        let n3 = n2 + light.len();
        if i == 0 {
        } else if i < n0 {
            assert(cands[i] == linux[i - 1]);
        } else if i < n1 {
            assert(cands[i] == dsp[i - n0]);
        } else if i < n2 {
            assert(cands[i] == fw[i - n1]);
        } else if i < n3 {
            assert(cands[i] == light[i - n2]);
        } else {
            assert(cands[i] == rat[i - n3]);
        }
    }
}

#[verifier::spinoff_prover]
proof fn lemma_chosen_native_firmware(cands: Seq<Cand>)
    requires
        cands_native_firmware(cands),
    ensures
        forall|k: int|
            0 <= k < chosen(ready_of(cands), all_caps()).len() && (#[trigger] chosen(
                ready_of(cands),
                all_caps(),
            )[k]).backend == BackendKind::ForgeHxNative ==> firmware_cap(
                chosen(ready_of(cands), all_caps())[k].capability,
            ),
{
    let ready = ready_of(cands);
    lemma_ready_of_members(cands);
    lemma_chosen(ready, all_caps());
    let picked = chosen(ready, all_caps());
    assert forall|k: int| 0 <= k < picked.len() && #[trigger] picked[k].backend
        == BackendKind::ForgeHxNative implies firmware_cap(picked[k].capability) by {
        let i = choose|i: int| selects(ready, picked[k].capability, i) && picked[k] == ready[i];
        assert(ready_member(cands, ready[i]));
        let j = choose|j: int| 0 <= j < cands.len() && cands[j].1 && cands[j].0 == ready[i];
        assert(cands[j].0.backend == BackendKind::ForgeHxNative);
    }
}

/// Only firmware capabilities have a ForgeHX Native owner without a
/// verified native driver: every other capability that a native owner holds
/// belongs to a device with a `protocol`.
pub proof fn law_native_owner_needs_driver(
    info: DeviceInfo,
    sources: Seq<u32>,
    linux_ready: bool,
    openrgb_ready: bool,
    openrgb: Seq<ExternalIdentity>,
    ratbag_ready: bool,
    ratbag: Seq<ExternalIdentity>,
    ratbag_state: Option<MouseDeviceState>,
)
    ensures
        forall|k: int|
            0 <= k < chosen(
                ready_of(
                    all_cands(info, sources, linux_ready, openrgb_ready, openrgb, ratbag_ready, ratbag, ratbag_state),
                ),
                all_caps(),
            ).len() ==> {
                let o = #[trigger] chosen(
                    ready_of(
                        all_cands(info, sources, linux_ready, openrgb_ready, openrgb, ratbag_ready, ratbag, ratbag_state),
                    ),
                    all_caps(),
                )[k];
                o.backend == BackendKind::ForgeHxNative && !firmware_cap(o.capability) ==> info.protocol is Some
            },
{
    if info.protocol is None {
        lemma_no_driver_cands_native_firmware(info, sources, linux_ready, openrgb_ready, openrgb, ratbag_ready, ratbag, ratbag_state);
        lemma_chosen_native_firmware(
            all_cands(info, sources, linux_ready, openrgb_ready, openrgb, ratbag_ready, ratbag, ratbag_state),
        );
    }
}

// ------------------------------------------------------------ building

/// A health as plain values: its variant and, for a backend error, the text.
pub open spec fn health_view(h: BackendHealth) -> (int, Seq<char>) {
    match h {
        BackendHealth::Ready => (0, Seq::empty()),
        BackendHealth::Unavailable => (1, Seq::empty()),
        BackendHealth::Disconnected => (2, Seq::empty()),
        BackendHealth::PermissionDenied => (3, Seq::empty()),
        BackendHealth::ProtocolMismatch => (4, Seq::empty()),
        BackendHealth::AmbiguousDeviceMatch => (5, Seq::empty()),
        BackendHealth::BackendError(m) => (6, m@),
    }
}

fn copy_health(h: &BackendHealth) -> (r: BackendHealth)
    ensures
        (r is Ready) == (*h is Ready),
        health_view(r) == health_view(*h),
{
    match h {
        BackendHealth::Ready => BackendHealth::Ready,
        BackendHealth::Unavailable => BackendHealth::Unavailable,
        BackendHealth::Disconnected => BackendHealth::Disconnected,
        BackendHealth::PermissionDenied => BackendHealth::PermissionDenied,
        BackendHealth::ProtocolMismatch => BackendHealth::ProtocolMismatch,
        BackendHealth::AmbiguousDeviceMatch => BackendHealth::AmbiguousDeviceMatch,
        BackendHealth::BackendError(m) => BackendHealth::BackendError(copy_string(m)),
    }
}

fn push_cand(
    out: &mut Vec<BackendCandidate>,
    capability: Capability,
    backend: BackendKind,
    id: Option<String>,
    verified: bool,
    writable: bool,
    detail: &str,
    health: BackendHealth,
)
    ensures
        cand_views(final(out)@) == cand_views(old(out)@).push(
            cand(capability, backend, opt_view(id), verified, writable, detail@, health is Ready),
        ),
{
    let owner = CapabilityOwner {
        capability,
        backend,
        backend_device_id: id,
        verified,
        writable,
        detail: Some(owned(detail)),
    };
    let ghost before = out@;
    out.push(BackendCandidate { owner, health });
    assert(cand_views(out@) =~= cand_views(before).push(
        cand(capability, backend, opt_view(id), verified, writable, detail@, health is Ready),
    ));
}

fn push_native(out: &mut Vec<BackendCandidate>, caps: &Vec<Capability>, driver: &String)
    ensures
        cand_views(final(out)@) == cand_views(old(out)@) + native_cands(caps@, driver@),
{
    let ghost start = cand_views(out@);
    let mut i: usize = 0;
    assert(start + native_cands(caps@.take(0), driver@) =~= start);
    while i < caps.len()
        invariant
            i <= caps@.len(),
            cand_views(out@) == start + native_cands(caps@.take(i as int), driver@),
        decreases caps@.len() - i,
    {
        let c = caps[i];
        assert(caps@.take(i as int + 1).drop_last() == caps@.take(i as int));
        if c != Capability::Diagnostics {
            let writable = c != Capability::BatteryStatus;
            push_cand(
                out,
                c,
                BackendKind::ForgeHxNative,
                Some(copy_string(driver)),
                true,
                writable,
                if writable {
                    "verified native driver"
                } else {
                    "verified native telemetry"
                },
                BackendHealth::Ready,
            );
        }
        i = i + 1;
    }
    assert(caps@.take(caps@.len() as int) == caps@);
}

fn first_node(ifaces: &Vec<DeviceInterface>) -> (r: Option<u32>)
    ensures
        r == first_audio_node(ifaces@),
{
    let mut i: usize = 0;
    assert(ifaces@.skip(0) == ifaces@);
    while i < ifaces.len()
        invariant
            i <= ifaces@.len(),
            first_audio_node(ifaces@) == first_audio_node(ifaces@.skip(i as int)),
        decreases ifaces@.len() - i,
    {
        assert(ifaces@.skip(i as int)[0] == ifaces@[i as int]);
        assert(ifaces@.skip(i as int).drop_first() == ifaces@.skip(i as int + 1));
        if let Some(n) = ifaces[i].audio_node_id {
            return Some(n);
        }
        i = i + 1;
    }
    None
}

fn contains_u32(v: &[u32], x: u32) -> (r: bool)
    ensures
        r == v@.contains(x),
{
    let mut j: usize = 0;
    while j < v.len()
        invariant
            j <= v@.len(),
            forall|k: int| 0 <= k < j ==> v@[k] != x,
        decreases v@.len() - j,
    {
        if v[j] == x {
            assert(v@[j as int] == x);
            return true;
        }
        j = j + 1;
    }
    false
}

fn source_node(ifaces: &Vec<DeviceInterface>, sources: &[u32]) -> (r: Option<u32>)
    ensures
        r == first_source_node(ifaces@, sources@),
{
    let mut i: usize = 0;
    assert(ifaces@.skip(0) == ifaces@);
    while i < ifaces.len()
        invariant
            i <= ifaces@.len(),
            first_source_node(ifaces@, sources@) == first_source_node(ifaces@.skip(i as int), sources@),
        decreases ifaces@.len() - i,
    {
        assert(ifaces@.skip(i as int)[0] == ifaces@[i as int]);
        assert(ifaces@.skip(i as int).drop_first() == ifaces@.skip(i as int + 1));
        if let Some(n) = ifaces[i].audio_node_id {
            if contains_u32(sources, n) {
                return Some(n);
            }
        }
        i = i + 1;
    }
    None
}

fn node_string(n: Option<u32>) -> (r: Option<String>)
    ensures
        opt_view(r) == node_text(n),
{
    match n {
        Some(v) => Some(string_from(&fmt_dec(v as u64))),
        None => None,
    }
}

fn push_linux(
    out: &mut Vec<BackendCandidate>,
    info: &DeviceInfo,
    linux_health: &BackendHealth,
)
    ensures
        cand_views(final(out)@) == cand_views(old(out)@) + linux_cands(
            info.generic_capabilities@,
            node_text(first_audio_node(info.interfaces@)),
            *linux_health is Ready,
        ),
{
    let ghost a = cand_views(out@);
    let node = first_node(&info.interfaces);
    let mut i: usize = 0;
    assert(a + linux_cands(info.generic_capabilities@.take(0), node_text(node), *linux_health is Ready)
        =~= a);
    while i < info.generic_capabilities.len()
        invariant
            i <= info.generic_capabilities@.len(),
            node == first_audio_node(info.interfaces@),
            cand_views(out@) == a + linux_cands(
                info.generic_capabilities@.take(i as int),
                node_text(node),
                *linux_health is Ready,
            ),
        decreases info.generic_capabilities@.len() - i,
    {
        let c = info.generic_capabilities[i];
        assert(info.generic_capabilities@.take(i as int + 1).drop_last()
            == info.generic_capabilities@.take(i as int));
        push_cand(
            out,
            c,
            BackendKind::LinuxStandard,
            node_string(node),
            true,
            c != Capability::BatteryStatus,
            "Linux standard interface",
            copy_health(linux_health),
        );
        i = i + 1;
    }
    assert(info.generic_capabilities@.take(info.generic_capabilities@.len() as int)
        == info.generic_capabilities@);
}

fn push_dsp(
    out: &mut Vec<BackendCandidate>,
    info: &DeviceInfo,
    source_node_ids: &[u32],
    linux_health: &BackendHealth,
)
    ensures
        cand_views(final(out)@) == cand_views(old(out)@) + dsp_cands(
            *info,
            source_node_ids@,
            *linux_health is Ready,
        ),
{
    let ghost b = cand_views(out@);
    if matches!(info.vendor_family, crate::model::VendorFamily::HyperX) && info.device_class
        == DeviceClass::Microphone {
        if let Some(n) = source_node(&info.interfaces, source_node_ids) {
            push_cand(
                out,
                Capability::MicDsp,
                BackendKind::ForgeHxDsp,
                Some(string_from(&fmt_dec(n as u64))),
                true,
                true,
                "input-only PipeWire capture graph",
                copy_health(linux_health),
            );
        }
    }
    assert(cand_views(out@) =~= b + dsp_cands(*info, source_node_ids@, *linux_health is Ready));
}

fn push_firmware(out: &mut Vec<BackendCandidate>, info: &DeviceInfo)
    ensures
        cand_views(final(out)@) == cand_views(old(out)@) + firmware_cands(*info),
{
    let ghost c = cand_views(out@);
    if let Some(adapter) = FirmwareRegistry::for_device(info) {
        push_cand(
            out,
            Capability::MicFirmwareInventory,
            BackendKind::ForgeHxNative,
            Some(copy_string(&adapter.id)),
            adapter.exact_hardware_match,
            false,
            if adapter.exact_hardware_match {
                "exact HyperX microphone firmware inventory"
            } else {
                "HyperX microphone model inventory only"
            },
            BackendHealth::Ready,
        );
        if adapter.support_level.can_update() {
            push_cand(
                out,
                Capability::MicFirmwareUpdate,
                BackendKind::ForgeHxNative,
                Some(copy_string(&adapter.id)),
                true,
                true,
                "verified model-specific firmware updater",
                BackendHealth::Ready,
            );
        }
        if adapter.support_level.can_recover() {
            push_cand(
                out,
                Capability::MicFirmwareRecovery,
                BackendKind::ForgeHxNative,
                Some(copy_string(&adapter.id)),
                true,
                true,
                "verified model-specific firmware recovery",
                BackendHealth::Ready,
            );
        }
    }
    assert(cand_views(out@) =~= c + firmware_cands(*info));
}

fn push_lighting(
    out: &mut Vec<BackendCandidate>,
    info: &DeviceInfo,
    openrgb_health: &BackendHealth,
    openrgb: &[ExternalIdentity],
)
    ensures
        cand_views(final(out)@) == cand_views(old(out)@) + lighting_cands(
            *info,
            openrgb@,
            *openrgb_health is Ready,
        ),
{
    let ghost d = cand_views(out@);
    match match_external_device(info, openrgb) {
        Ok(external) => {
            proof {
                let k = choose|k: int| unique_best(*info, openrgb@, k) && *external == openrgb@[k];
                lemma_unique_best_unique(*info, openrgb@, k, matched(*info, openrgb@));
            }
            push_cand(
                out,
                Capability::Lighting,
                BackendKind::OpenRgb,
                Some(copy_string(&external.id)),
                true,
                true,
                "deterministic OpenRGB match",
                copy_health(openrgb_health),
            );
        },
        Err(MatchError::Ambiguous) => {
            push_cand(
                out,
                Capability::Lighting,
                BackendKind::OpenRgb,
                None,
                false,
                false,
                "ambiguous OpenRGB match",
                BackendHealth::AmbiguousDeviceMatch,
            );
        },
        Err(MatchError::NoMatch) => {},
    }
    assert(cand_views(out@) =~= d + lighting_cands(*info, openrgb@, *openrgb_health is Ready));
}

fn push_ratbag_state(
    out: &mut Vec<BackendCandidate>,
    id: &String,
    state: &MouseDeviceState,
    ratbag_health: &BackendHealth,
)
    ensures
        cand_views(final(out)@) == cand_views(old(out)@) + (if state.dpi_stages@.len() > 0 {
            seq![ratbag_cand(Capability::Dpi, id@, "ratbagd resolution"@, *ratbag_health is Ready)]
        } else {
            Seq::empty()
        }) + (if state.report_rate_hz is Some {
            seq![
                ratbag_cand(
                    Capability::PollingRate,
                    id@,
                    "ratbagd report rate"@,
                    *ratbag_health is Ready,
                ),
            ]
        } else {
            Seq::empty()
        }) + (if state.active_profile is Some {
            seq![ratbag_cand(Capability::Profiles, id@, "ratbagd profiles"@, *ratbag_health is Ready)]
        } else {
            Seq::empty()
        }) + (if has_buttons(*state) {
            seq![
                ratbag_cand(
                    Capability::Bindings,
                    id@,
                    "ratbagd button actions"@,
                    *ratbag_health is Ready,
                ),
                ratbag_cand(
                    Capability::MacroAssignments,
                    id@,
                    "ratbagd button actions"@,
                    *ratbag_health is Ready,
                ),
            ]
        } else {
            Seq::empty()
        }),
{
    let ghost e = cand_views(out@);
    if state.dpi_stages.len() > 0 {
        push_cand(
            out,
            Capability::Dpi,
            BackendKind::Ratbag,
            Some(copy_string(id)),
            true,
            true,
            "ratbagd resolution",
            copy_health(ratbag_health),
        );
    }
    let ghost e1 = cand_views(out@);
    if state.report_rate_hz.is_some() {
        push_cand(
            out,
            Capability::PollingRate,
            BackendKind::Ratbag,
            Some(copy_string(id)),
            true,
            true,
            "ratbagd report rate",
            copy_health(ratbag_health),
        );
    }
    let ghost e2 = cand_views(out@);
    if state.active_profile.is_some() {
        push_cand(
            out,
            Capability::Profiles,
            BackendKind::Ratbag,
            Some(copy_string(id)),
            true,
            true,
            "ratbagd profiles",
            copy_health(ratbag_health),
        );
    }
    let ghost e3 = cand_views(out@);
    let buttons = match state.button_count {
        Some(n) => n > 0,
        None => false,
    };
    if buttons {
        push_cand(
            out,
            Capability::Bindings,
            BackendKind::Ratbag,
            Some(copy_string(id)),
            true,
            true,
            "ratbagd button actions",
            copy_health(ratbag_health),
        );
        push_cand(
            out,
            Capability::MacroAssignments,
            BackendKind::Ratbag,
            Some(copy_string(id)),
            true,
            true,
            "ratbagd button actions",
            copy_health(ratbag_health),
        );
    }
    assert(cand_views(out@) =~= e + (if state.dpi_stages@.len() > 0 {
        seq![ratbag_cand(Capability::Dpi, id@, "ratbagd resolution"@, *ratbag_health is Ready)]
    } else {
        Seq::empty()
    }) + (if state.report_rate_hz is Some {
        seq![ratbag_cand(Capability::PollingRate, id@, "ratbagd report rate"@, *ratbag_health is Ready)]
    } else {
        Seq::empty()
    }) + (if state.active_profile is Some {
        seq![ratbag_cand(Capability::Profiles, id@, "ratbagd profiles"@, *ratbag_health is Ready)]
    } else {
        Seq::empty()
    }) + (if has_buttons(*state) {
        seq![
            ratbag_cand(Capability::Bindings, id@, "ratbagd button actions"@, *ratbag_health is Ready),
            ratbag_cand(
                Capability::MacroAssignments,
                id@,
                "ratbagd button actions"@,
                *ratbag_health is Ready,
            ),
        ]
    } else {
        Seq::empty()
    }));
}

fn push_ratbag(
    out: &mut Vec<BackendCandidate>,
    info: &DeviceInfo,
    ratbag_health: &BackendHealth,
    ratbag: &[ExternalIdentity],
    ratbag_state: &Option<MouseDeviceState>,
)
    ensures
        cand_views(final(out)@) == cand_views(old(out)@) + ratbag_cands(
            *info,
            ratbag@,
            *ratbag_state,
            *ratbag_health is Ready,
        ),
{
    let ghost e = cand_views(out@);
    match match_external_device(info, ratbag) {
        Ok(external) => {
            proof {
                let k = choose|k: int| unique_best(*info, ratbag@, k) && *external == ratbag@[k];
                lemma_unique_best_unique(*info, ratbag@, k, matched(*info, ratbag@));
            }
            match ratbag_state {
                Some(state) => {
                    push_ratbag_state(out, &external.id, state, ratbag_health);
                },
                None => {
                    assert(cand_views(out@) =~= e + Seq::<Cand>::empty());
                },
            }
        },
        Err(_) => {
            assert(cand_views(out@) =~= e + Seq::<Cand>::empty());
        },
    }
}

/// Everything that may own a capability of the device, each with its
/// backend's health; owner selection reads only whether that health is
/// `Ready`.
fn capability_candidates(
    info: &DeviceInfo,
    source_node_ids: &[u32],
    linux_health: &BackendHealth,
    openrgb_health: &BackendHealth,
    openrgb: &[ExternalIdentity],
    ratbag_health: &BackendHealth,
    ratbag: &[ExternalIdentity],
    ratbag_state: &Option<MouseDeviceState>,
) -> (r: Vec<BackendCandidate>)
    ensures
        cand_views(r@) == all_cands(
            *info,
            source_node_ids@,
            *linux_health is Ready,
            *openrgb_health is Ready,
            openrgb@,
            *ratbag_health is Ready,
            ratbag@,
            *ratbag_state,
        ),
{
    let mut out: Vec<BackendCandidate> = Vec::new();
    push_cand(
        &mut out,
        Capability::Diagnostics,
        BackendKind::Diagnostic,
        None,
        true,
        false,
        "read-only",
        BackendHealth::Ready,
    );
    assert(cand_views(out@) =~= seq![diagnostics_cand()]);
    if let Some(driver) = &info.protocol {
        push_native(&mut out, &info.capabilities, driver);
    } else {
        assert(cand_views(out@) + Seq::<Cand>::empty() =~= cand_views(out@));
    }
    push_linux(&mut out, info, linux_health);
    push_dsp(&mut out, info, source_node_ids, linux_health);
    push_firmware(&mut out, info);
    push_lighting(&mut out, info, openrgb_health, openrgb);
    push_ratbag(&mut out, info, ratbag_health, ratbag, ratbag_state);
    out
}

/// Everything but the capability owners is the same.
pub open spec fn same_but_owners(a: DeviceInfo, b: DeviceInfo) -> bool {
    &&& a.id == b.id
    &&& a.name == b.name
    &&& a.manufacturer == b.manufacturer
    &&& a.vendor_id == b.vendor_id
    &&& a.product_id == b.product_id
    &&& a.serial == b.serial
    &&& a.vendor_family == b.vendor_family
    &&& a.device_class == b.device_class
    &&& a.support_level == b.support_level
    &&& a.connection_kind == b.connection_kind
    &&& a.interfaces == b.interfaces
    &&& a.capabilities == b.capabilities
    &&& a.generic_capabilities == b.generic_capabilities
    &&& a.battery_percent == b.battery_percent
    &&& a.battery_state == b.battery_state
    &&& a.protocol == b.protocol
}

/// Decides the owner of every capability of the device: the candidates of
/// `capability_candidates`, and per capability the one `select_owner`
/// chooses among those whose backend is ready. `ratbag_state` is what
/// ratbagd reported for the mouse that matched the device, if it answered.
pub fn assign_capability_owners(
    info: &mut DeviceInfo,
    source_node_ids: &[u32],
    linux_health: &BackendHealth,
    openrgb_health: &BackendHealth,
    openrgb: &[ExternalIdentity],
    ratbag_health: &BackendHealth,
    ratbag: &[ExternalIdentity],
    ratbag_state: &Option<MouseDeviceState>,
)
    ensures
        same_but_owners(*final(info), *old(info)),
        owner_views_of(final(info).capability_owners@) == chosen(
            ready_of(
                all_cands(
                    *old(info),
                    source_node_ids@,
                    *linux_health is Ready,
                    *openrgb_health is Ready,
                    openrgb@,
                    *ratbag_health is Ready,
                    ratbag@,
                    *ratbag_state,
                ),
            ),
            all_caps(),
        ),
{
    let candidates = capability_candidates(
        info,
        source_node_ids,
        linux_health,
        openrgb_health,
        openrgb,
        ratbag_health,
        ratbag,
        ratbag_state,
    );
    info.capability_owners = owners_for(&candidates);
}


// ------------------------------------------------------------ refreshing

/// Text that is present and not empty.
pub open spec fn nonempty(s: Seq<char>) -> Option<Seq<char>> {
    if s.len() > 0 {
        Some(s)
    } else {
        None
    }
}

fn nonempty_of(s: &String) -> (r: Option<String>)
    ensures
        opt_view(r) == nonempty(s@),
{
    if str_chars(s.as_str()).len() > 0 {
        Some(copy_string(s))
    } else {
        None
    }
}

/// How an OpenRGB controller is matched: its id, name, and its vendor,
/// serial and location where not empty; no USB ids.
pub fn openrgb_identity(meta: &LightingControllerMetadata) -> (r: ExternalIdentity)
    ensures
        r.id@ == meta.backend_device_id@,
        r.name@ == meta.name@,
        opt_view(r.vendor) == nonempty(meta.vendor@),
        opt_view(r.serial) == nonempty(meta.serial@),
        opt_view(r.location) == nonempty(meta.location@),
        r.vendor_id is None,
        r.product_id is None,
{
    ExternalIdentity {
        id: copy_string(&meta.backend_device_id),
        name: copy_string(&meta.name),
        vendor: nonempty_of(&meta.vendor),
        serial: nonempty_of(&meta.serial),
        location: nonempty_of(&meta.location),
        vendor_id: None,
        product_id: None,
    }
}

/// The USB ids a ratbagd model names, zero where it names none.
pub open spec fn model_ids(model: Option<Seq<char>>) -> (u16, u16) {
    match model {
        Some(m) => match usb_model_ids(m) {
            Some(ids) => ids,
            None => (0, 0),
        },
        None => (0, 0),
    }
}

/// How a ratbagd mouse is matched: its id and name, the vendor its name
/// mentions, its model string as location, and the model's USB ids where
/// they are not zero.
pub fn ratbag_identity(device: &RatbagDevice) -> (r: ExternalIdentity)
    ensures
        r.id@ == device.id@,
        r.name@ == device.name@,
        opt_view(r.vendor) == audio_vendor(device.name@, 0),
        r.serial is None,
        opt_view(r.location) == opt_view(device.model),
        r.vendor_id == nonzero(model_ids(opt_view(device.model)).0),
        r.product_id == nonzero(model_ids(opt_view(device.model)).1),
{
    let (vid, pid) = match &device.model {
        Some(m) => match parse_ratbag_usb_model(m.as_str()) {
            Some(ids) => ids,
            None => (0, 0),
        },
        None => (0, 0),
    };
    ExternalIdentity {
        id: copy_string(&device.id),
        name: copy_string(&device.name),
        vendor: vendor_name_from_audio(device.name.as_str()),
        serial: None,
        location: copy_opt(&device.model),
        vendor_id: if vid != 0 {
            Some(vid)
        } else {
            None
        },
        product_id: if pid != 0 {
            Some(pid)
        } else {
            None
        },
    }
}

pub open spec fn is_source_id() -> spec_fn(AudioEndpoint) -> bool {
    |n: AudioEndpoint| is_source_node(n)
}

/// The ids of the capture sources among the audio nodes, in order.
pub fn source_node_ids(nodes: &[AudioEndpoint]) -> (r: Vec<u32>)
    ensures
        r@ == nodes@.filter(is_source_id()).map_values(|n: AudioEndpoint| n.id),
{
    let mut out: Vec<u32> = Vec::new();
    let mut i: usize = 0;
    proof {
        reveal(Seq::filter);
    }
    assert(nodes@.take(0).filter(is_source_id()) =~= Seq::<AudioEndpoint>::empty());
    while i < nodes.len()
        invariant
            i <= nodes@.len(),
            out@ == nodes@.take(i as int).filter(is_source_id()).map_values(|n: AudioEndpoint| n.id),
        decreases nodes@.len() - i,
    {
        let n = &nodes[i];
        let ghost t = nodes@.take(i as int + 1);
        assert(t.drop_last() == nodes@.take(i as int));
        assert(t.last() == *n);
        proof {
            reveal(Seq::filter);
        }
        if chars_eq(&str_chars(n.kind.as_str()), &str_chars("source")) {
            out.push(n.id);
            assert(out@ =~= t.filter(is_source_id()).map_values(|n: AudioEndpoint| n.id));
        } else {
            assert(out@ =~= t.filter(is_source_id()).map_values(|n: AudioEndpoint| n.id));
        }
        i = i + 1;
    }
    assert(nodes@.take(nodes@.len() as int) == nodes@);
    out
}

/// The health of the Linux-standard backend: ready when audio discovery
/// answered, else its error.
pub fn audio_health(audio: &Result<Vec<AudioEndpoint>, String>) -> (r: BackendHealth)
    ensures
        match audio {
            Ok(_) => r is Ready,
            Err(m) => r matches BackendHealth::BackendError(t) && t@ == m@,
        },
{
    match audio {
        Ok(_) => BackendHealth::Ready,
        Err(m) => BackendHealth::BackendError(copy_string(m)),
    }
}

/// How the OpenRGB backend is described: disabled, the server and
/// negotiated versions it speaks, or why it failed.
pub open spec fn openrgb_detail_text(outcome: Option<Result<OpenRgbProtocolInfo, BackendError>>) -> Seq<char> {
    match outcome {
        None => "OpenRGB compatibility backend disabled"@,
        Some(Ok(info)) => "OpenRGB SDK 127.0.0.1:6742 \u{2022} server v"@ + dec_str(
            info.server_version as nat,
        ) + " \u{2022} negotiated v"@ + dec_str(info.negotiated_version as nat),
        Some(Err(e)) => "OpenRGB SDK 127.0.0.1:6742 \u{2022} "@ + e.text(),
    }
}

pub fn openrgb_detail(outcome: &Option<Result<OpenRgbProtocolInfo, BackendError>>) -> (r: String)
    ensures
        r@ == openrgb_detail_text(*outcome),
{
    match outcome {
        None => owned("OpenRGB compatibility backend disabled"),
        Some(Ok(info)) => string_from(
            &concat(
                &concat(
                    &concat(
                        &str_chars("OpenRGB SDK 127.0.0.1:6742 \u{2022} server v"),
                        &fmt_dec(info.server_version as u64),
                    ),
                    &str_chars(" \u{2022} negotiated v"),
                ),
                &fmt_dec(info.negotiated_version as u64),
            ),
        ),
        Some(Err(e)) => string_from(
            &concat(
                &str_chars("OpenRGB SDK 127.0.0.1:6742 \u{2022} "),
                &str_chars(e.message().as_str()),
            ),
        ),
    }
}

pub open spec fn is_status(s: BackendStatus, backend: BackendKind, health: BackendHealth, detail: Seq<char>) -> bool {
    s.backend == backend && health_view(s.health) == health_view(health) && opt_view(s.detail)
        == Some(detail)
}

fn status(backend: BackendKind, health: BackendHealth, detail: &str) -> (r: BackendStatus)
    ensures
        is_status(r, backend, health, detail@),
{
    BackendStatus { backend, health, detail: Some(owned(detail)) }
}

/// The status of every backend, in a fixed order: native and diagnostics
/// always ready, the input DSP and Linux-standard interfaces as audio
/// discovery went, OpenRGB and ratbagd as they answered.
pub fn backend_statuses(
    linux: &BackendHealth,
    openrgb: &BackendHealth,
    openrgb_detail: &String,
    ratbag: &BackendHealth,
) -> (r: Vec<BackendStatus>)
    ensures
        r@.len() == 6,
        is_status(r@[0], BackendKind::ForgeHxNative, BackendHealth::Ready, "verified device registry"@),
        is_status(r@[1], BackendKind::ForgeHxDsp, *linux, "input-only PipeWire microphone processing"@),
        is_status(r@[2], BackendKind::LinuxStandard, *linux, "PipeWire/WirePlumber + sysfs"@),
        is_status(r@[3], BackendKind::OpenRgb, *openrgb, openrgb_detail@),
        is_status(r@[4], BackendKind::Ratbag, *ratbag, "ratbagctl / ratbagd D-Bus"@),
        is_status(r@[5], BackendKind::Diagnostic, BackendHealth::Ready, "read-only diagnostics"@),
{
    let v = vec![
        status(BackendKind::ForgeHxNative, BackendHealth::Ready, "verified device registry"),
        status(BackendKind::ForgeHxDsp, copy_health(linux), "input-only PipeWire microphone processing"),
        status(BackendKind::LinuxStandard, copy_health(linux), "PipeWire/WirePlumber + sysfs"),
        status(BackendKind::OpenRgb, copy_health(openrgb), openrgb_detail.as_str()),
        status(BackendKind::Ratbag, copy_health(ratbag), "ratbagctl / ratbagd D-Bus"),
        status(BackendKind::Diagnostic, BackendHealth::Ready, "read-only diagnostics"),
    ];
    v
}

/// The state ratbagd reported for the mouse that matches the device:
/// `states[i]` belongs to `ratbag[i]`.
pub open spec fn matched_state(
    info: DeviceInfo,
    ratbag: Seq<ExternalIdentity>,
    states: Seq<Option<MouseDeviceState>>,
) -> Option<MouseDeviceState> {
    if exists|i: int| unique_best(info, ratbag, i) {
        let i = matched(info, ratbag);
        if i < states.len() {
            states[i]
        } else {
            None
        }
    } else {
        None
    }
}

/// `after` is `before` with the owners of every device decided afresh.
pub open spec fn owners_assigned(
    before: Seq<DiscoveredDevice>,
    after: Seq<DiscoveredDevice>,
    sources: Seq<u32>,
    linux_ready: bool,
    openrgb_ready: bool,
    openrgb: Seq<ExternalIdentity>,
    ratbag_ready: bool,
    ratbag: Seq<ExternalIdentity>,
    states: Seq<Option<MouseDeviceState>>,
) -> bool {
    &&& after.len() == before.len()
    &&& forall|i: int|
        0 <= i < before.len() ==> {
            let a = #[trigger] after[i];
            let b = before[i];
            &&& a.raw_interfaces == b.raw_interfaces
            &&& same_but_owners(a.info, b.info)
            &&& owner_views_of(a.info.capability_owners@) == chosen(
                ready_of(
                    all_cands(
                        b.info,
                        sources,
                        linux_ready,
                        openrgb_ready,
                        openrgb,
                        ratbag_ready,
                        ratbag,
                        matched_state(b.info, ratbag, states),
                    ),
                ),
                all_caps(),
            )
        }
}

/// Decides the owners of every device (see `owners_assigned`): each with
/// the state ratbagd reported for the mouse that matches it, `states[i]`
/// being that of `ratbag[i]`.
pub fn assign_all_owners(
    devices: &mut Vec<DiscoveredDevice>,
    sources: &[u32],
    linux_health: &BackendHealth,
    openrgb_health: &BackendHealth,
    openrgb: &[ExternalIdentity],
    ratbag_health: &BackendHealth,
    ratbag: &[ExternalIdentity],
    states: &[Option<MouseDeviceState>],
)
    ensures
        owners_assigned(
            old(devices)@,
            final(devices)@,
            sources@,
            *linux_health is Ready,
            *openrgb_health is Ready,
            openrgb@,
            *ratbag_health is Ready,
            ratbag@,
            states@,
        ),
{
    let ghost before = devices@;
    let none: Option<MouseDeviceState> = None;
    let mut i: usize = 0;
    while i < devices.len()
        invariant
            devices@.len() == before.len(),
            i <= before.len(),
            none is None,
            forall|k: int| i <= k < before.len() ==> #[trigger] devices@[k] == before[k],
            forall|k: int|
                0 <= k < i ==> {
                    let a = #[trigger] devices@[k];
                    let b = before[k];
                    &&& a.raw_interfaces == b.raw_interfaces
                    &&& same_but_owners(a.info, b.info)
                    &&& owner_views_of(a.info.capability_owners@) == chosen(
                        ready_of(
                            all_cands(
                                b.info,
                                sources@,
                                *linux_health is Ready,
                                *openrgb_health is Ready,
                                openrgb@,
                                *ratbag_health is Ready,
                                ratbag@,
                                matched_state(b.info, ratbag@, states@),
                            ),
                        ),
                        all_caps(),
                    )
                },
        decreases before.len() - i,
    {
        let ghost mid = devices@;
        let mut d = devices.remove(i);
        assert(d == before[i as int]);
        let state: &Option<MouseDeviceState> = match match_external_index(&d.info, ratbag) {
            Ok(j) => {
                proof {
                    lemma_unique_best_unique(d.info, ratbag@, j as int, matched(d.info, ratbag@));
                }
                if j < states.len() {
                    &states[j]
                } else {
                    &none
                }
            },
            Err(_) => &none,
        };
        assert(*state == matched_state(before[i as int].info, ratbag@, states@));
        assign_capability_owners(
            &mut d.info,
            sources,
            linux_health,
            openrgb_health,
            openrgb,
            ratbag_health,
            ratbag,
            state,
        );
        devices.insert(i, d);
        assert(forall|k: int| 0 <= k < mid.len() && k != i ==> devices@[k] == mid[k]);
        i = i + 1;
    }
}

/// Two-text keys that order devices by name, then id.
pub open spec fn info_keys(d: Seq<DeviceInfo>) -> Seq<Seq<Seq<char>>> {
    d.map_values(|x: DeviceInfo| seq![x.name@, x.id.0@])
}

/// The inventory in the order clients see it: by name, then id (stable).
pub fn sort_inventory(devices: Vec<DeviceInfo>) -> (r: Vec<DeviceInfo>)
    ensures
        stably_sorted(devices@, info_keys(devices@), r@),
{
    let mut keys: Vec<Vec<Vec<char>>> = Vec::new();
    let mut i: usize = 0;
    while i < devices.len()
        invariant
            i <= devices@.len(),
            keys@.len() == i,
            forall|j: int|
                0 <= j < i ==> key_view(#[trigger] keys@[j]@) == seq![devices@[j].name@, devices@[j].id.0@],
        decreases devices@.len() - i,
    {
        let k = vec![str_chars(devices[i].name.as_str()), str_chars(devices[i].id.0.as_str())];
        assert(key_view(k@) =~= seq![devices@[i as int].name@, devices@[i as int].id.0@]);
        keys.push(k);
        i = i + 1;
    }
    assert(key_views(keys@) =~= info_keys(devices@));
    stable_sort_by_keys(devices, keys)
}


// ------------------------------------------------------------ lighting

/// The native driver of the Pulsefire Haste Wireless.
pub const PULSEFIRE_HASTE_DRIVER_ID: &'static str = "hyperx-pulsefire-haste-wireless-v1";

/// The native driver of the Pulsefire Saga Pro.
pub const SAGA_PRO_DRIVER_ID: &'static str = "hyperx-pulsefire-saga-pro-v1";

pub open spec fn is_lighting_hid() -> spec_fn(DeviceInterface) -> bool {
    |x: DeviceInterface| x.interface_number == Some(2i32) && x.source == InterfaceSource::Hid
}

/// Where the Haste's lighting is driven: the path of its HID interface 2.
pub open spec fn haste_location(ifaces: Seq<DeviceInterface>) -> Seq<char> {
    match first_index(ifaces, is_lighting_hid()) {
        Some(i) => ifaces[i].path@,
        None => "native HID interface 2"@,
    }
}

pub open spec fn is_mode(m: LightingModeMetadata, index: u32, name: Seq<char>) -> bool {
    &&& m.index == index
    &&& m.name@ == name
    &&& m.speed_min == 0
    &&& m.speed_max == 100
    &&& m.brightness_min == Some(0u32)
    &&& m.brightness_max == Some(100u32)
}

/// The lighting the native Haste driver offers: one logo LED, static,
/// breathing and spectrum modes.
pub open spec fn is_haste_metadata(m: LightingControllerMetadata, device: DeviceInfo) -> bool {
    &&& m.backend_device_id@ == PULSEFIRE_HASTE_DRIVER_ID@
    &&& m.name@ == "HyperX Pulsefire Haste Wireless"@
    &&& m.vendor@ == "HyperX"@
    &&& m.description@ == "ForgeHX Native single-logo RGB with onboard persistence"@
    &&& m.version@ == "Haste v1 64-byte HID"@
    &&& m.serial@ == (match opt_view(device.serial) {
        Some(s) => s,
        None => Seq::empty(),
    })
    &&& m.location@ == haste_location(device.interfaces@)
    &&& m.led_count == 1
    &&& m.modes@.len() == 3
    &&& is_mode(m.modes@[0], 0, "Static"@)
    &&& is_mode(m.modes@[1], 1, "Breathing"@)
    &&& is_mode(m.modes@[2], 2, "Spectrum"@)
    &&& m.zones@.len() == 1
    &&& m.zones@[0].index == 0
    &&& m.zones@[0].name@ == "Logo"@
    &&& m.zones@[0].led_count == 1
    &&& m.protocol_version == IPC_PROTOCOL_VERSION
}

fn mode(index: u32, name: &str) -> (r: LightingModeMetadata)
    ensures
        is_mode(r, index, name@),
{
    LightingModeMetadata {
        index,
        name: owned(name),
        speed_min: 0,
        speed_max: 100,
        brightness_min: Some(0),
        brightness_max: Some(100),
    }
}

/// What lighting a native driver describes: the Haste's, for the Haste
/// driver; nothing for any other.
pub fn native_lighting_metadata(device: &DeviceInfo) -> (r: Option<LightingControllerMetadata>)
    ensures
        opt_view(device.protocol) == Some(PULSEFIRE_HASTE_DRIVER_ID@) ==> (r matches Some(m)
            && is_haste_metadata(m, *device)),
        opt_view(device.protocol) != Some(PULSEFIRE_HASTE_DRIVER_ID@) ==> r is None,
{
    let is_haste = match &device.protocol {
        Some(p) => chars_eq(&str_chars(p.as_str()), &str_chars(PULSEFIRE_HASTE_DRIVER_ID)),
        None => false,
    };
    if !is_haste {
        return None;
    }
    let ghost ifaces = device.interfaces@;
    let mut location: Option<String> = None;
    let mut i: usize = 0;
    while i < device.interfaces.len()
        invariant_except_break
            location is None,
        invariant
            i <= ifaces.len(),
            ifaces == device.interfaces@,
            forall|j: int| 0 <= j < i ==> !is_lighting_hid()(#[trigger] ifaces[j]),
        ensures
            i <= ifaces.len(),
            forall|j: int| 0 <= j < i ==> !is_lighting_hid()(#[trigger] ifaces[j]),
            location matches Some(l) ==> i < ifaces.len() && is_lighting_hid()(ifaces[i as int])
                && l@ == ifaces[i as int].path@,
            location is None ==> i == ifaces.len(),
        decreases ifaces.len() - i,
    {
        let x = &device.interfaces[i];
        if x.interface_number == Some(2i32) && x.source == InterfaceSource::Hid {
            location = Some(copy_string(&x.path));
            break;
        }
        i = i + 1;
    }
    proof {
        lemma_first_index_is(ifaces, is_lighting_hid(), i as int);
    }
    let location = match location {
        Some(l) => l,
        None => owned("native HID interface 2"),
    };
    let serial = match &device.serial {
        Some(s) => copy_string(s),
        None => String::new(),
    };
    let modes = vec![mode(0, "Static"), mode(1, "Breathing"), mode(2, "Spectrum")];
    let zones = vec![LightingZoneMetadata { index: 0, name: owned("Logo"), led_count: 1 }];
    Some(
        LightingControllerMetadata {
            backend_device_id: owned(PULSEFIRE_HASTE_DRIVER_ID),
            name: owned("HyperX Pulsefire Haste Wireless"),
            vendor: owned("HyperX"),
            description: owned("ForgeHX Native single-logo RGB with onboard persistence"),
            version: owned("Haste v1 64-byte HID"),
            serial,
            location,
            led_count: 1,
            modes,
            zones,
            protocol_version: IPC_PROTOCOL_VERSION,
        },
    )
}


/// How the Haste's battery report reads: full first, then charging over the
/// cable, running wirelessly, charging, on battery; nothing when the report
/// says too little.
pub open spec fn haste_battery_text(full: Option<bool>, charging: Option<bool>, wired: Option<bool>) -> Option<
    Seq<char>,
> {
    match (full, charging, wired) {
        (Some(true), _, _) => Some("full"@),
        (_, Some(true), Some(true)) => Some("charging (wired)"@),
        (_, Some(false), Some(false)) => Some("wireless"@),
        (_, Some(true), _) => Some("charging"@),
        (_, Some(false), _) => Some("battery"@),
        _ => None,
    }
}

pub fn haste_battery_state(full: Option<bool>, charging: Option<bool>, wired: Option<bool>) -> (r: Option<
    String,
>)
    ensures
        opt_view(r) == haste_battery_text(full, charging, wired),
{
    match (full, charging, wired) {
        (Some(true), _, _) => Some(owned("full")),
        (_, Some(true), Some(true)) => Some(owned("charging (wired)")),
        (_, Some(false), Some(false)) => Some(owned("wireless")),
        (_, Some(true), _) => Some(owned("charging")),
        (_, Some(false), _) => Some(owned("battery")),
        _ => None,
    }
}

/// How the Saga Pro's battery report reads: full, charging, on battery, or
/// nothing.
pub open spec fn saga_battery_text(full: Option<bool>, charging: Option<bool>) -> Option<Seq<char>> {
    match (full, charging) {
        (Some(true), _) => Some("full"@),
        (_, Some(true)) => Some("charging"@),
        (_, Some(false)) => Some("battery"@),
        _ => None,
    }
}

pub fn saga_battery_state(full: Option<bool>, charging: Option<bool>) -> (r: Option<String>)
    ensures
        opt_view(r) == saga_battery_text(full, charging),
{
    match (full, charging) {
        (Some(true), _) => Some(owned("full")),
        (_, Some(true)) => Some(owned("charging")),
        (_, Some(false)) => Some(owned("battery")),
        _ => None,
    }
}

// ------------------------------------------------------------ request routing

/// Where a mouse request goes: to ratbagd, for the mouse it knows by this
/// id, or to the native Haste driver.
#[derive(Debug, Clone)]
pub enum MouseRoute {
    Ratbag(String),
    NativeHaste,
}

/// Where a lighting request goes: to an OpenRGB controller, or to the
/// native Haste or Saga Pro driver.
#[derive(Debug, Clone, Copy, PartialEq, Eq, Structural)]
pub enum LightingRoute {
    OpenRgb(u32),
    NativeHaste,
    NativeSagaPro,
}

pub open spec fn is_reply(r: ErrorReply, code: Seq<char>, message: Seq<char>) -> bool {
    r.code@ == code && r.message@ == message
}

pub open spec fn is_error_reply(r: ErrorReply, e: ForgeHxError) -> bool {
    is_reply(r, error_code_spec(e), e.text())
}

fn reply(code: &str, message: &str) -> (r: ErrorReply)
    ensures
        is_reply(r, code@, message@),
{
    ErrorReply { code: owned(code), message: owned(message) }
}

pub open spec fn has_driver(device: DeviceInfo, driver: Seq<char>) -> bool {
    opt_view(device.protocol) == Some(driver)
}

fn driver_is(device: &DeviceInfo, driver: &str) -> (r: bool)
    ensures
        r == has_driver(*device, driver@),
{
    match &device.protocol {
        Some(p) => chars_eq(&str_chars(p.as_str()), &str_chars(driver)),
        None => false,
    }
}

/// The route of a mouse request that the owner `owner` of `capability`
/// decides: ratbagd needs the id it knows the mouse by (`missing` is the
/// refusal without it); the native driver must be the Haste's
/// (`unimplemented` is the refusal otherwise); any other backend cannot.
pub fn route_mouse_request(
    device: &DeviceInfo,
    owner: &CapabilityOwner,
    capability: Capability,
    missing: &str,
    unimplemented: &str,
) -> (r: Result<MouseRoute, ErrorReply>)
    ensures
        match owner.backend {
            BackendKind::Ratbag => match opt_view(owner.backend_device_id) {
                Some(id) => r matches Ok(MouseRoute::Ratbag(s)) && s@ == id,
                None => r matches Err(e) && is_reply(e, "backend_protocol"@, missing@),
            },
            BackendKind::ForgeHxNative => if has_driver(*device, PULSEFIRE_HASTE_DRIVER_ID@) {
                r matches Ok(MouseRoute::NativeHaste)
            } else {
                r matches Err(e) && is_reply(e, "protocol_unimplemented"@, unimplemented@)
            },
            _ => r matches Err(e) && is_error_reply(e, ForgeHxError::Unsupported(capability)),
        },
{
    match owner.backend {
        BackendKind::Ratbag => match &owner.backend_device_id {
            Some(id) => Ok(MouseRoute::Ratbag(copy_string(id))),
            None => Err(reply("backend_protocol", missing)),
        },
        BackendKind::ForgeHxNative => {
            if driver_is(device, PULSEFIRE_HASTE_DRIVER_ID) {
                Ok(MouseRoute::NativeHaste)
            } else {
                Err(reply("protocol_unimplemented", unimplemented))
            }
        },
        _ => Err(error_reply(&ForgeHxError::Unsupported(capability))),
    }
}

/// The owner a mouse-state request reads from: that of the resolution,
/// else of the report rate, else of the profiles.
pub fn mouse_state_owner(device: &DeviceInfo) -> (r: Result<CapabilityOwner, ForgeHxError>)
    ensures
        match crate::model::owner_of(device.capability_owners@, Capability::Dpi) {
            Some(o) => r matches Ok(x) && x@ == o@,
            None => match crate::model::owner_of(device.capability_owners@, Capability::PollingRate) {
                Some(o) => r matches Ok(x) && x@ == o@,
                None => match crate::model::owner_of(device.capability_owners@, Capability::Profiles) {
                    Some(o) => r matches Ok(x) && x@ == o@,
                    None => r == Err::<CapabilityOwner, ForgeHxError>(
                        ForgeHxError::Unsupported(Capability::Profiles),
                    ),
                },
            },
        },
{
    match owner_for(device, Capability::Dpi) {
        Ok(o) => Ok(o),
        Err(_) => match owner_for(device, Capability::PollingRate) {
            Ok(o) => Ok(o),
            Err(_) => owner_for(device, Capability::Profiles),
        },
    }
}

/// A resolution request needs at least one stage and an active stage among them.
pub fn check_dpi_request(stages: usize, active_stage: usize) -> (r: Result<(), ErrorReply>)
    ensures
        r is Ok <==> stages > 0 && active_stage < stages,
        r matches Err(e) ==> is_reply(e, "profile"@, "invalid DPI stages"@),
{
    if stages == 0 || active_stage >= stages {
        return Err(reply("profile", "invalid DPI stages"));
    }
    Ok(())
}

/// Lift-off distance is written by the native Haste driver only.
pub fn route_lift_off(device: &DeviceInfo, owner: &CapabilityOwner) -> (r: Result<(), ErrorReply>)
    ensures
        r is Ok <==> owner.backend == BackendKind::ForgeHxNative && has_driver(
            *device,
            PULSEFIRE_HASTE_DRIVER_ID@,
        ),
        owner.backend != BackendKind::ForgeHxNative ==> (r matches Err(e) && is_reply(
            e,
            "unsupported"@,
            "lift-off distance requires the ForgeHX Native Haste driver"@,
        )),
        owner.backend == BackendKind::ForgeHxNative && !has_driver(*device, PULSEFIRE_HASTE_DRIVER_ID@)
            ==> (r matches Err(e) && is_reply(
            e,
            "protocol_unimplemented"@,
            "native lift-off distance writer is not implemented for this driver"@,
        )),
{
    if owner.backend != BackendKind::ForgeHxNative {
        return Err(reply("unsupported", "lift-off distance requires the ForgeHX Native Haste driver"));
    }
    if !driver_is(device, PULSEFIRE_HASTE_DRIVER_ID) {
        return Err(
            reply(
                "protocol_unimplemented",
                "native lift-off distance writer is not implemented for this driver",
            ),
        );
    }
    Ok(())
}

/// The OpenRGB controller an owner maps to, or the refusal of a bad mapping.
fn controller_of(owner: &CapabilityOwner) -> (r: Result<u32, ErrorReply>)
    ensures
        match opt_view(owner.backend_device_id) {
            Some(id) => match parse_bounded(id, 10, 0xffff_ffff) {
                Some(v) => r == Ok::<u32, ErrorReply>(v as u32),
                None => r matches Err(e) && is_reply(
                    e,
                    "backend_protocol"@,
                    "invalid OpenRGB controller mapping"@,
                ),
            },
            None => r matches Err(e) && is_reply(
                e,
                "backend_protocol"@,
                "invalid OpenRGB controller mapping"@,
            ),
        },
{
    match openrgb_controller_index(owner) {
        Some(i) => Ok(i),
        None => Err(reply("backend_protocol", "invalid OpenRGB controller mapping")),
    }
}

/// The route of a lighting write: a read-only owner refuses it; OpenRGB
/// needs its controller index; the native driver must be the Haste's or the
/// Saga Pro's; any other backend cannot.
pub fn route_lighting_write(device: &DeviceInfo, owner: &CapabilityOwner) -> (r: Result<
    LightingRoute,
    ErrorReply,
>)
    ensures
        !owner.writable ==> (r matches Err(e) && is_reply(
            e,
            "unsupported"@,
            "selected lighting backend is read-only"@,
        )),
        owner.writable ==> match owner.backend {
            BackendKind::OpenRgb => match opt_view(owner.backend_device_id) {
                Some(id) => match parse_bounded(id, 10, 0xffff_ffff) {
                    Some(v) => r == Ok::<LightingRoute, ErrorReply>(LightingRoute::OpenRgb(v as u32)),
                    None => r matches Err(e) && is_reply(
                        e,
                        "backend_protocol"@,
                        "invalid OpenRGB controller mapping"@,
                    ),
                },
                None => r matches Err(e) && is_reply(
                    e,
                    "backend_protocol"@,
                    "invalid OpenRGB controller mapping"@,
                ),
            },
            BackendKind::ForgeHxNative => if has_driver(*device, PULSEFIRE_HASTE_DRIVER_ID@) {
                r == Ok::<LightingRoute, ErrorReply>(LightingRoute::NativeHaste)
            } else if has_driver(*device, SAGA_PRO_DRIVER_ID@) {
                r == Ok::<LightingRoute, ErrorReply>(LightingRoute::NativeSagaPro)
            } else {
                r matches Err(e) && is_reply(
                    e,
                    "protocol_unimplemented"@,
                    "native lighting writer is not implemented for this driver"@,
                )
            },
            _ => r matches Err(e) && is_error_reply(e, ForgeHxError::Unsupported(Capability::Lighting)),
        },
{
    if !owner.writable {
        return Err(reply("unsupported", "selected lighting backend is read-only"));
    }
    match owner.backend {
        BackendKind::OpenRgb => match controller_of(owner) {
            Ok(i) => Ok(LightingRoute::OpenRgb(i)),
            Err(e) => Err(e),
        },
        BackendKind::ForgeHxNative => {
            if driver_is(device, PULSEFIRE_HASTE_DRIVER_ID) {
                Ok(LightingRoute::NativeHaste)
            } else if driver_is(device, SAGA_PRO_DRIVER_ID) {
                Ok(LightingRoute::NativeSagaPro)
            } else {
                Err(reply("protocol_unimplemented", "native lighting writer is not implemented for this driver"))
            }
        },
        _ => Err(error_reply(&ForgeHxError::Unsupported(Capability::Lighting))),
    }
}

/// What a lighting-metadata request is answered from: an OpenRGB
/// controller, or the native driver's own description.
#[derive(Debug, Clone)]
pub enum LightingSource {
    OpenRgb(u32),
    Native(Option<LightingControllerMetadata>),
}

/// Where lighting metadata comes from: OpenRGB owners by controller index;
/// native owners describe themselves (the Haste does, others nothing); any
/// other backend cannot.
pub fn lighting_metadata_source(device: &DeviceInfo, owner: &CapabilityOwner) -> (r: Result<
    LightingSource,
    ErrorReply,
>)
    ensures
        match owner.backend {
            BackendKind::OpenRgb => match opt_view(owner.backend_device_id) {
                Some(id) => match parse_bounded(id, 10, 0xffff_ffff) {
                    Some(v) => r matches Ok(LightingSource::OpenRgb(i)) && i == v as u32,
                    None => r matches Err(e) && is_reply(
                        e,
                        "backend_protocol"@,
                        "invalid OpenRGB controller mapping"@,
                    ),
                },
                None => r matches Err(e) && is_reply(
                    e,
                    "backend_protocol"@,
                    "invalid OpenRGB controller mapping"@,
                ),
            },
            BackendKind::ForgeHxNative => r matches Ok(LightingSource::Native(m)) && (if has_driver(
                *device,
                PULSEFIRE_HASTE_DRIVER_ID@,
            ) {
                m matches Some(x) && is_haste_metadata(x, *device)
            } else {
                m is None
            }),
            _ => r matches Err(e) && is_error_reply(e, ForgeHxError::Unsupported(Capability::Lighting)),
        },
{
    match owner.backend {
        BackendKind::OpenRgb => match controller_of(owner) {
            Ok(i) => Ok(LightingSource::OpenRgb(i)),
            Err(e) => Err(e),
        },
        BackendKind::ForgeHxNative => Ok(LightingSource::Native(native_lighting_metadata(device))),
        _ => Err(error_reply(&ForgeHxError::Unsupported(Capability::Lighting))),
    }
}


// ------------------------------------------------------------ firmware requests

pub open spec fn no_adapter_reply(r: ErrorReply) -> bool {
    is_reply(r, "firmware_unsupported"@, "no HyperX microphone firmware adapter matches this device"@)
}

/// The firmware identity of a microphone with an adapter: its id, the
/// adapter's model and support level, nothing read from the hardware.
pub fn firmware_identity(device: &DeviceInfo) -> (r: Result<FirmwareIdentity, ErrorReply>)
    ensures
        match adapter_for(*device) {
            Some(a) => r matches Ok(id) && {
                &&& id.device_id.0@ == device.id.0@
                &&& id.model@ == a.model
                &&& id.hardware_revision is None
                &&& id.firmware_version is None
                &&& id.firmware_version_source is None
                &&& id.bootloader_version is None
                &&& id.support_level == a.support_level
            },
            None => r matches Err(e) && no_adapter_reply(e),
        },
{
    match FirmwareRegistry::for_device(device) {
        Some(adapter) => Ok(
            FirmwareIdentity {
                device_id: DeviceId(copy_string(&device.id.0)),
                model: copy_string(&adapter.model),
                hardware_revision: None,
                firmware_version: None,
                firmware_version_source: None,
                bootloader_version: None,
                support_level: adapter.support_level,
            },
        ),
        None => Err(reply("firmware_unsupported", "no HyperX microphone firmware adapter matches this device")),
    }
}

/// The staged copy a request names: the first with that id; it must have
/// been staged for the same device.
pub fn staged_for(staged: &[StagedFirmware], staged_id: &str, device_id: &DeviceId) -> (r: Result<
    usize,
    ErrorReply,
>)
    ensures
        match r {
            Ok(i) => i < staged@.len() && staged@[i as int].staged_id@ == staged_id@
                && staged@[i as int].device_id.0@ == device_id.0@ && forall|j: int|
                0 <= j < i ==> #[trigger] staged@[j].staged_id@ != staged_id@,
            Err(e) => (exists|i: int|
                0 <= i < staged@.len() && #[trigger] staged@[i].staged_id@ == staged_id@ && staged@[i].device_id.0@
                    != device_id.0@ && forall|j: int| 0 <= j < i ==> #[trigger] staged@[j].staged_id@ != staged_id@)
                && is_reply(e, "firmware_target_mismatch"@, "staged firmware belongs to another device"@)
                || (forall|i: int| 0 <= i < staged@.len() ==> #[trigger] staged@[i].staged_id@ != staged_id@)
                && is_reply(e, "firmware_stage_missing"@, "staged firmware was not found"@),
        },
{
    let wanted = str_chars(staged_id);
    let mut i: usize = 0;
    while i < staged.len()
        invariant
            i <= staged@.len(),
            wanted@ == staged_id@,
            forall|j: int| 0 <= j < i ==> #[trigger] staged@[j].staged_id@ != staged_id@,
        decreases staged@.len() - i,
    {
        if chars_eq(&str_chars(staged[i].staged_id.as_str()), &wanted) {
            if chars_eq(&str_chars(staged[i].device_id.0.as_str()), &str_chars(device_id.0.as_str())) {
                return Ok(i);
            }
            return Err(reply("firmware_target_mismatch", "staged firmware belongs to another device"));
        }
        i = i + 1;
    }
    Err(reply("firmware_stage_missing", "staged firmware was not found"))
}

/// `i` is the first staged package with id `id`.
pub open spec fn first_staged(staged: Seq<StagedFirmware>, id: Seq<char>, i: int) -> bool {
    0 <= i < staged.len() && staged[i].staged_id@ == id && forall|j: int|
        0 <= j < i ==> #[trigger] staged[j].staged_id@ != id
}

/// The first package staged under `id` was staged for `device_id`.
pub open spec fn staged_here(staged: Seq<StagedFirmware>, id: Seq<char>, device_id: Seq<char>) -> bool {
    exists|i: int| #[trigger] first_staged(staged, id, i) && staged[i].device_id.0@ == device_id
}

/// `p` is what validating `s` with adapter `a` reports: the package's own
/// id, name, digest and size, an opaque format, the adapter's model when it
/// matches the hardware exactly, and an unknown version without a verified
/// signature.
pub open spec fn package_report(a: AdapterSpec, s: StagedFirmware, p: FirmwarePackageInfo) -> bool {
    &&& p.staged_id@ == s.staged_id@
    &&& p.original_filename@ == s.original_filename@
    &&& p.sha256@ == s.sha256@
    &&& p.size_bytes == s.size_bytes
    &&& p.parsed_format@ == "opaque"@
    &&& (if a.exact_hardware_match {
        p.claimed_model matches Some(m) && m@ == a.model
    } else {
        p.claimed_model is None
    })
    &&& p.claimed_hardware_revision is None
    &&& p.claimed_firmware_version is None
    &&& p.validation == FirmwareValidation::VersionUnknown
    &&& !p.vendor_signature_verified
}

/// What validating a staged copy for a device gives: the adapter's
/// verdict on the copy, once the device has an adapter and the copy is its
/// own.
pub fn firmware_validation(device: &DeviceInfo, staged: &[StagedFirmware], staged_id: &str) -> (r: Result<
    FirmwarePackageInfo,
    ErrorReply,
>)
    ensures
        adapter_for(*device) is None ==> (r matches Err(e) && no_adapter_reply(e)),
        adapter_for(*device) is Some ==> (r is Ok <==> staged_here(staged@, staged_id@, device.id.0@)),
        r matches Ok(p) ==> exists|i: int|
            first_staged(staged@, staged_id@, i) && staged@[i].device_id.0@ == device.id.0@
                && package_report(adapter_for(*device)->0, staged@[i], p),
        adapter_for(*device) is Some && !staged_here(staged@, staged_id@, device.id.0@) ==> (r matches Err(
            e,
        ) && (if exists|i: int| first_staged(staged@, staged_id@, i) {
            is_reply(e, "firmware_target_mismatch"@, "staged firmware belongs to another device"@)
        } else {
            is_reply(e, "firmware_stage_missing"@, "staged firmware was not found"@)
        })),
{
    let adapter = match FirmwareRegistry::for_device(device) {
        Some(a) => a,
        None => return Err(reply("firmware_unsupported", "no HyperX microphone firmware adapter matches this device")),
    };
    match staged_for(staged, staged_id, &device.id) {
        Ok(i) => {
            let p = validate_package(&adapter, &staged[i]);
            assert(first_staged(staged@, staged_id@, i as int));
            Ok(p)
        },
        Err(e) => {
            proof {
                if exists|k: int|
                    0 <= k < staged@.len() && #[trigger] staged@[k].staged_id@ == staged_id@
                        && staged@[k].device_id.0@ != device.id.0@ && forall|j: int|
                        0 <= j < k ==> #[trigger] staged@[j].staged_id@ != staged_id@ {
                    let k = choose|k: int|
                        0 <= k < staged@.len() && #[trigger] staged@[k].staged_id@ == staged_id@
                            && staged@[k].device_id.0@ != device.id.0@ && forall|j: int|
                            0 <= j < k ==> #[trigger] staged@[j].staged_id@ != staged_id@;
                    assert(first_staged(staged@, staged_id@, k));
                    assert forall|i: int| #[trigger] first_staged(staged@, staged_id@, i) implies i == k by {
                        if i < k {
                            assert(staged@[i].staged_id@ != staged_id@);
                        } else if k < i {
                            assert(staged@[k].staged_id@ != staged_id@);
                        }
                    }
                } else {
                    assert forall|i: int| !#[trigger] first_staged(staged@, staged_id@, i) by {
                        if 0 <= i < staged@.len() {
                            assert(staged@[i].staged_id@ != staged_id@);
                        }
                    }
                }
            }
            Err(e)
        },
    }
}

/// Why an update cannot begin. Every request to begin one is refused: no
/// adapter; an inventory-only adapter; a staged copy that is missing or
/// another device's; a package not valid (the earlier validation's
/// verdict where there is one, else a fresh one); and otherwise because no
/// verified writer is installed.
pub fn firmware_begin_refusal(
    device: &DeviceInfo,
    staged: &[StagedFirmware],
    validated: &[FirmwarePackageInfo],
    staged_id: &str,
) -> (r: ErrorReply)
    ensures
        adapter_for(*device) is None ==> no_adapter_reply(r),
        adapter_for(*device) is Some ==> is_reply(
            r,
            "firmware_update_unavailable"@,
            adapter_for(*device)->0.model
                + " firmware support is inventory-only; no verified update transport is enabled"@,
        ),
{
    proof {
        law_registry_is_inventory_only(*device);
    }
    let adapter = match FirmwareRegistry::for_device(device) {
        Some(a) => a,
        None => return reply("firmware_unsupported", "no HyperX microphone firmware adapter matches this device"),
    };
    if !adapter.support_level.can_update() {
        let text = concat(
            &str_chars(adapter.model.as_str()),
            &str_chars(" firmware support is inventory-only; no verified update transport is enabled"),
        );
        return ErrorReply { code: owned("firmware_update_unavailable"), message: string_from(&text) };
    }
    let index = match staged_for(staged, staged_id, &device.id) {
        Ok(i) => i,
        Err(e) => return e,
    };
    let wanted = str_chars(staged_id);
    let mut validation = validate_package(&adapter, &staged[index]).validation;
    let mut j: usize = 0;
    while j < validated.len()
        invariant
            j <= validated@.len(),
        decreases validated@.len() - j,
    {
        if chars_eq(&str_chars(validated[j].staged_id.as_str()), &wanted) {
            validation = validated[j].validation;
            break;
        }
        j = j + 1;
    }
    if validation != FirmwareValidation::Valid {
        let text = concat(
            &str_chars("firmware package validation is "),
            &str_chars(validation.name()),
        );
        return ErrorReply { code: owned("firmware_package_not_valid"), message: string_from(&text) };
    }
    reply("firmware_update_unavailable", "adapter is marked update-capable but no verified writer is installed")
}

// ------------------------------------------------------------ protocol

/// The largest request or reply payload the daemon reads: 4 MiB.
pub const IPC_MAX_FRAME: usize = 4194304;

/// The big-endian `u32` length written in front of a payload of `len`
/// bytes; a payload whose length does not fit a `u32` is refused.
pub fn ipc_frame_prefix(len: usize) -> (r: Result<[u8; 4], String>)
    ensures
        r is Ok <==> len <= u32::MAX,
        r matches Ok(b) ==> be32(b@) == len,
        r matches Err(m) ==> m@ == "ForgeHX frame too large"@,
{
    if len as u64 > u32::MAX as u64 {
        return Err(owned("ForgeHX frame too large"));
    }
    let n = len as u32;
    let b = [(n / 16777216) as u8, ((n / 65536) % 256) as u8, ((n / 256) % 256) as u8, (n % 256) as u8];
    assert(b@[0] == n / 16777216);
    assert(b@[1] == (n / 65536) % 256);
    assert(b@[2] == (n / 256) % 256);
    assert(b@[3] == n % 256);
    assert((n / 16777216) * 16777216 + ((n / 65536) % 256) * 65536 + ((n / 256) % 256) * 256 + n % 256 == n) by (nonlinear_arith)
        requires
            n < 16777216 * 256,
    ;
    Ok(b)
}

/// The payload length a received prefix announces; an empty payload and
/// one over `IPC_MAX_FRAME` are refused.
pub fn ipc_frame_length(prefix: [u8; 4]) -> (r: Result<usize, String>)
    ensures
        r is Ok <==> 0 < be32(prefix@) <= IPC_MAX_FRAME,
        r matches Ok(n) ==> n == be32(prefix@),
        r matches Err(m) ==> m@ == "invalid ForgeHX frame length"@,
{
    let len: u64 = prefix[0] as u64 * 16777216 + prefix[1] as u64 * 65536 + prefix[2] as u64 * 256
        + prefix[3] as u64;
    if len == 0 || len > IPC_MAX_FRAME as u64 {
        return Err(owned("invalid ForgeHX frame length"));
    }
    Ok(len as usize)
}

/// The kind of a request, as the protocol names it.
#[derive(Debug, Clone, Copy, PartialEq, Eq, Structural)]
pub enum CommandKind {
    Ping,
    DaemonStatus,
    ListDevices,
    ListHyperxDevices,
    ListAllDevices,
    RefreshDevices,
    Doctor,
    ListAudio,
    BackendStatus,
    BackendRescan,
    BackendEnsure,
    BackendRestart,
    ProfileList,
    ProfileGet,
    ProfileSave,
    ProfileApply,
    LightingMetadata,
    SetLighting,
    MouseState,
    MouseCapabilities,
    KeyboardCapabilities,
    SetDpi,
    SetPollingRate,
    SetMouseProfile,
    SetButtonAssignment,
    SetLiftOffDistance,
    AudioSetVolume,
    AudioSetMute,
    EqList,
    EqGet,
    EqSave,
    EqDelete,
    EqApply,
    EqBypass,
    MicDspGet,
    MicDspSave,
    MicDspLiveUpdate,
    MicDspApply,
    MicDspBypass,
    MicVoiceEnrollStart,
    MicVoiceEnrollCancel,
    MicVoiceForget,
    MicMonitorSet,
    MicFirmwareGet,
    MicFirmwareStage,
    MicFirmwareValidate,
    MicFirmwareBegin,
    MicFirmwareStatus,
    MicFirmwareForget,
    OutputDspGet,
    OutputDspLiveUpdate,
    OutputDspResetFactory,
}

/// The oldest protocol version that can carry a command of this kind.
pub open spec fn min_version(k: CommandKind) -> u32 {
    match k {
        CommandKind::OutputDspGet | CommandKind::OutputDspLiveUpdate | CommandKind::OutputDspResetFactory => 12,
        CommandKind::MicMonitorSet => 11,
        CommandKind::SetLiftOffDistance => 10,
        CommandKind::MicVoiceEnrollStart | CommandKind::MicVoiceEnrollCancel | CommandKind::MicVoiceForget => 9,
        CommandKind::MicDspLiveUpdate => 8,
        CommandKind::KeyboardCapabilities => 7,
        CommandKind::MicFirmwareGet | CommandKind::MicFirmwareStage | CommandKind::MicFirmwareValidate | CommandKind::MicFirmwareBegin | CommandKind::MicFirmwareStatus | CommandKind::MicFirmwareForget => 6,
        CommandKind::MouseCapabilities => 5,
        CommandKind::MicDspGet | CommandKind::MicDspSave | CommandKind::MicDspApply | CommandKind::MicDspBypass => 4,
        CommandKind::BackendStatus | CommandKind::BackendRescan | CommandKind::BackendEnsure | CommandKind::BackendRestart | CommandKind::ProfileSave | CommandKind::LightingMetadata | CommandKind::MouseState | CommandKind::SetPollingRate | CommandKind::SetMouseProfile | CommandKind::SetButtonAssignment | CommandKind::EqList | CommandKind::EqGet | CommandKind::EqSave | CommandKind::EqDelete | CommandKind::EqApply | CommandKind::EqBypass => 3,
        _ => 2,
    }
}

impl CommandKind {
    /// The oldest protocol version that can deserialize and execute it.
    pub fn minimum_protocol_version(self) -> (r: u32)
        ensures
            r == min_version(self),
    {
        match self {
            CommandKind::OutputDspGet | CommandKind::OutputDspLiveUpdate | CommandKind::OutputDspResetFactory => 12,
            CommandKind::MicMonitorSet => 11,
            CommandKind::SetLiftOffDistance => 10,
            CommandKind::MicVoiceEnrollStart | CommandKind::MicVoiceEnrollCancel | CommandKind::MicVoiceForget => 9,
            CommandKind::MicDspLiveUpdate => 8,
            CommandKind::KeyboardCapabilities => 7,
            CommandKind::MicFirmwareGet | CommandKind::MicFirmwareStage | CommandKind::MicFirmwareValidate | CommandKind::MicFirmwareBegin | CommandKind::MicFirmwareStatus | CommandKind::MicFirmwareForget => 6,
            CommandKind::MouseCapabilities => 5,
            CommandKind::MicDspGet | CommandKind::MicDspSave | CommandKind::MicDspApply | CommandKind::MicDspBypass => 4,
            CommandKind::BackendStatus | CommandKind::BackendRescan | CommandKind::BackendEnsure | CommandKind::BackendRestart | CommandKind::ProfileSave | CommandKind::LightingMetadata | CommandKind::MouseState | CommandKind::SetPollingRate | CommandKind::SetMouseProfile | CommandKind::SetButtonAssignment | CommandKind::EqList | CommandKind::EqGet | CommandKind::EqSave | CommandKind::EqDelete | CommandKind::EqApply | CommandKind::EqBypass => 3,
            _ => 2,
        }
    }
}

/// What the daemon reads of a request before it runs it: its kind and the
/// protocol version the client sent with it.
#[derive(Debug, Clone, Copy, PartialEq, Eq, Structural)]
pub struct CommandHeader {
    pub kind: CommandKind,
    pub protocol_version: u32,
}

impl CommandHeader {
    pub fn protocol_version(&self) -> (r: u32)
        ensures
            r == self.protocol_version,
    {
        self.protocol_version
    }

    pub fn minimum_protocol_version(&self) -> (r: u32)
        ensures
            r == min_version(self.kind),
    {
        self.kind.minimum_protocol_version()
    }

    /// The same request, sent with another protocol version.
    pub fn with_protocol_version(self, version: u32) -> (r: Self)
        ensures
            r.kind == self.kind,
            r.protocol_version == version,
    {
        CommandHeader { kind: self.kind, protocol_version: version }
    }
}

/// The version a request needs: its own minimum, never below the oldest
/// supported one.
pub open spec fn required_version(k: CommandKind) -> u32 {
    if min_version(k) < IPC_MIN_PROTOCOL_VERSION {
        IPC_MIN_PROTOCOL_VERSION
    } else {
        min_version(k)
    }
}

/// A ping is always answered, so that a client can negotiate; any other
/// request needs a version between what it requires and the daemon's own.
pub open spec fn admitted(h: CommandHeader) -> bool {
    h.kind == CommandKind::Ping || (required_version(h.kind) <= h.protocol_version
        && h.protocol_version <= IPC_PROTOCOL_VERSION)
}

pub open spec fn mismatch_text(client: u32, required: u32) -> Seq<char> {
    "protocol version mismatch: daemon="@ + dec_str(IPC_PROTOCOL_VERSION as nat) + ", client="@
        + dec_str(client as nat) + ", supported="@ + dec_str(IPC_MIN_PROTOCOL_VERSION as nat)
        + "..="@ + dec_str(IPC_PROTOCOL_VERSION as nat) + ", command_requires="@ + dec_str(
        required as nat,
    )
}

/// An error reply: its code and message.
#[derive(Debug, Clone)]
pub struct ErrorReply {
    pub code: String,
    pub message: String,
}

/// The version gate in front of every request: the client's version when
/// the request may run, else the `protocol_version` error it is answered.
pub fn gate_request(header: &CommandHeader) -> (r: Result<u32, ErrorReply>)
    ensures
        r is Ok <==> admitted(*header),
        r matches Ok(v) ==> v == header.protocol_version,
        r matches Err(e) ==> e.code@ == "protocol_version"@ && e.message@ == mismatch_text(
            header.protocol_version,
            required_version(header.kind),
        ),
{
    let client = header.protocol_version();
    let min = header.minimum_protocol_version();
    let required = if min < IPC_MIN_PROTOCOL_VERSION {
        IPC_MIN_PROTOCOL_VERSION
    } else {
        min
    };
    if header.kind != CommandKind::Ping && (client < required || client > IPC_PROTOCOL_VERSION) {
        let text = concat(
            &concat(
                &concat(
                    &concat(
                        &concat(
                            &concat(
                                &concat(
                                    &concat(
                                        &concat(
                                            &str_chars("protocol version mismatch: daemon="),
                                            &fmt_dec(IPC_PROTOCOL_VERSION as u64),
                                        ),
                                        &str_chars(", client="),
                                    ),
                                    &fmt_dec(client as u64),
                                ),
                                &str_chars(", supported="),
                            ),
                            &fmt_dec(IPC_MIN_PROTOCOL_VERSION as u64),
                        ),
                        &str_chars("..="),
                    ),
                    &fmt_dec(IPC_PROTOCOL_VERSION as u64),
                ),
                &str_chars(", command_requires="),
            ),
            &fmt_dec(required as u64),
        );
        return Err(ErrorReply { code: owned("protocol_version"), message: string_from(&text) });
    }
    Ok(client)
}

// ------------------------------------------------------------ support level

/// The first owner of `c` is a verified native one.
pub open spec fn first_is_native(s: Seq<OwnerView>, c: Capability) -> bool {
    exists|j: int|
        0 <= j < s.len() && #[trigger] s[j].capability == c && (forall|k: int|
            0 <= k < j ==> #[trigger] s[k].capability != c) && s[j].backend
            == BackendKind::ForgeHxNative && s[j].verified
}

/// A registered fully supported model whose native driver is loaded and
/// owns every one of its capabilities but diagnostics.
pub open spec fn native_complete(
    caps: Seq<Capability>,
    owners: Seq<OwnerView>,
    registered: SupportLevel,
    has_protocol: bool,
) -> bool {
    &&& registered == SupportLevel::FullySupported
    &&& has_protocol
    &&& forall|c: Capability|
        caps.contains(c) && c != Capability::Diagnostics ==> #[trigger] first_is_native(owners, c)
}

/// Some owner serves more than diagnostics.
pub open spec fn has_useful(owners: Seq<OwnerView>) -> bool {
    exists|i: int| 0 <= i < owners.len() && #[trigger] owners[i].capability != Capability::Diagnostics
}

/// Every owner that serves more than diagnostics is a Linux-standard one.
pub open spec fn useful_all_linux(owners: Seq<OwnerView>) -> bool {
    forall|i: int|
        0 <= i < owners.len() && #[trigger] owners[i].capability != Capability::Diagnostics
            ==> owners[i].backend == BackendKind::LinuxStandard
}

/// The support level a device is reported with: full for a complete native
/// driver or a complete microphone stack; without owners beyond diagnostics
/// unavailable (no interfaces) or diagnostic-only; generic controls when
/// only Linux-standard owners serve it; partial otherwise.
pub open spec fn support_for(
    caps: Seq<Capability>,
    owners: Seq<OwnerView>,
    registered: SupportLevel,
    has_protocol: bool,
    no_interfaces: bool,
    complete_microphone: bool,
) -> SupportLevel {
    if native_complete(caps, owners, registered, has_protocol) || complete_microphone {
        SupportLevel::FullySupported
    } else if !has_useful(owners) {
        if no_interfaces {
            SupportLevel::Unavailable
        } else {
            SupportLevel::DiagnosticOnly
        }
    } else if useful_all_linux(owners) {
        SupportLevel::GenericControls
    } else {
        SupportLevel::PartiallySupported
    }
}

fn first_owner_native(owners: &Vec<CapabilityOwner>, c: Capability) -> (r: bool)
    ensures
        r == first_is_native(owner_views_of(owners@), c),
{
    let ghost s = owner_views_of(owners@);
    let mut j: usize = 0;
    while j < owners.len()
        invariant
            j <= owners@.len(),
            s == owner_views_of(owners@),
            s.len() == owners@.len(),
            forall|k: int| 0 <= k < j ==> #[trigger] s[k].capability != c,
        decreases owners@.len() - j,
    {
        assert(s[j as int] == owners@[j as int]@);
        if owners[j].capability == c {
            let ok = owners[j].backend == BackendKind::ForgeHxNative && owners[j].verified;
            proof {
                if !ok && first_is_native(s, c) {
                    let w = choose|w: int|
                        0 <= w < s.len() && #[trigger] s[w].capability == c && (forall|k: int|
                            0 <= k < w ==> #[trigger] s[k].capability != c) && s[w].backend
                            == BackendKind::ForgeHxNative && s[w].verified;
                    if w < j {
                        assert(s[w].capability != c);
                    } else if w > j {
                        assert(s[j as int].capability != c);
                    }
                }
            }
            return ok;
        }
        j = j + 1;
    }
    false
}

/// Whether the device's native driver owns everything it registers.
pub fn complete_native_support(device: &DeviceInfo, registered_native_level: SupportLevel) -> (r:
    bool)
    ensures
        r == native_complete(
            device.capabilities@,
            owner_views_of(device.capability_owners@),
            registered_native_level,
            device.protocol is Some,
        ),
{
    if registered_native_level != SupportLevel::FullySupported || device.protocol.is_none() {
        return false;
    }
    let ghost s = owner_views_of(device.capability_owners@);
    let caps = &device.capabilities;
    let mut i: usize = 0;
    while i < caps.len()
        invariant
            i <= caps@.len(),
            s == owner_views_of(device.capability_owners@),
            caps@ == device.capabilities@,
            forall|k: int|
                0 <= k < i && caps@[k] != Capability::Diagnostics ==> #[trigger] first_is_native(
                    s,
                    caps@[k],
                ),
        decreases caps@.len() - i,
    {
        let c = caps[i];
        if c != Capability::Diagnostics {
            if !first_owner_native(&device.capability_owners, c) {
                assert(caps@[i as int] == c);
                assert(caps@.contains(c) && c != Capability::Diagnostics);
                assert(!first_is_native(s, c));
                return false;
            }
        }
        i = i + 1;
    }
    proof {
        assert forall|c: Capability| caps@.contains(c) && c != Capability::Diagnostics implies #[trigger] first_is_native(
            s,
            c,
        ) by {
            let k = choose|k: int| 0 <= k < caps@.len() && caps@[k] == c;
            assert(first_is_native(s, caps@[k]));
        }
    }
    true
}

fn support_level_of(
    caps: &Vec<Capability>,
    owners: &Vec<CapabilityOwner>,
    registered: SupportLevel,
    has_protocol: bool,
    no_interfaces: bool,
    complete_microphone: bool,
    device: &DeviceInfo,
) -> (r: SupportLevel)
    requires
        caps@ == device.capabilities@,
        owners@ == device.capability_owners@,
        has_protocol == (device.protocol is Some),
    ensures
        r == support_for(
            caps@,
            owner_views_of(owners@),
            registered,
            has_protocol,
            no_interfaces,
            complete_microphone,
        ),
{
    let ghost s = owner_views_of(owners@);
    if complete_native_support(device, registered) || complete_microphone {
        return SupportLevel::FullySupported;
    }
    let mut any_useful = false;
    let mut all_linux = true;
    let mut i: usize = 0;
    while i < owners.len()
        invariant
            i <= owners@.len(),
            s == owner_views_of(owners@),
            s.len() == owners@.len(),
            any_useful <==> exists|k: int|
                0 <= k < i && #[trigger] s[k].capability != Capability::Diagnostics,
            all_linux <==> forall|k: int|
                0 <= k < i && #[trigger] s[k].capability != Capability::Diagnostics ==> s[k].backend
                    == BackendKind::LinuxStandard,
        decreases owners@.len() - i,
    {
        assert(s[i as int] == owners@[i as int]@);
        assert(s[i as int].capability == owners@[i as int].capability);
        assert(s[i as int].backend == owners@[i as int].backend);
        if owners[i].capability != Capability::Diagnostics {
            any_useful = true;
            if owners[i].backend != BackendKind::LinuxStandard {
                all_linux = false;
            }
        }
        i = i + 1;
    }
    if !any_useful {
        if no_interfaces {
            SupportLevel::Unavailable
        } else {
            SupportLevel::DiagnosticOnly
        }
    } else if all_linux {
        SupportLevel::GenericControls
    } else {
        SupportLevel::PartiallySupported
    }
}

proof fn lemma_support_same_set(
    a: Seq<Capability>,
    b: Seq<Capability>,
    owners: Seq<OwnerView>,
    registered: SupportLevel,
    has_protocol: bool,
    no_interfaces: bool,
    complete_microphone: bool,
)
    requires
        forall|c: Capability| #[trigger] a.contains(c) <==> b.contains(c),
    ensures
        support_for(a, owners, registered, has_protocol, no_interfaces, complete_microphone)
            == support_for(b, owners, registered, has_protocol, no_interfaces, complete_microphone),
{
    assert(native_complete(a, owners, registered, has_protocol) == native_complete(
        b,
        owners,
        registered,
        has_protocol,
    ));
}

/// Everything but the capability lists and the support level is the same.
pub open spec fn same_but_support(a: DeviceInfo, b: DeviceInfo) -> bool {
    &&& a.id == b.id
    &&& a.name == b.name
    &&& a.manufacturer == b.manufacturer
    &&& a.vendor_id == b.vendor_id
    &&& a.product_id == b.product_id
    &&& a.serial == b.serial
    &&& a.vendor_family == b.vendor_family
    &&& a.device_class == b.device_class
    &&& a.connection_kind == b.connection_kind
    &&& a.interfaces == b.interfaces
    &&& a.capability_owners == b.capability_owners
    &&& a.battery_percent == b.battery_percent
    &&& a.battery_state == b.battery_state
    &&& a.protocol == b.protocol
}

/// Normalizing is stable: a device whose support level was normalized keeps
/// that level when it is normalized again, since normalizing changes neither
/// which capabilities it lists nor its owners, driver or interfaces.
pub proof fn law_support_normalization_is_stable(
    caps: Seq<Capability>,
    normalized_caps: Seq<Capability>,
    owners: Seq<OwnerView>,
    registered: SupportLevel,
    has_protocol: bool,
    no_interfaces: bool,
    complete_microphone: bool,
)
    requires
        forall|c: Capability| #[trigger] normalized_caps.contains(c) <==> caps.contains(c),
    ensures
        support_for(
            normalized_caps,
            owners,
            support_for(caps, owners, registered, has_protocol, no_interfaces, complete_microphone),
            has_protocol,
            no_interfaces,
            complete_microphone,
        ) == support_for(caps, owners, registered, has_protocol, no_interfaces, complete_microphone),
{
    if native_complete(caps, owners, registered, has_protocol) {
        assert forall|c: Capability| normalized_caps.contains(c) && c != Capability::Diagnostics implies #[trigger] first_is_native(
            owners,
            c,
        ) by {
            assert(caps.contains(c));
        }
        assert(native_complete(normalized_caps, owners, SupportLevel::FullySupported, has_protocol));
    }
}

/// Sorts and deduplicates the capability lists and decides the support
/// level. `complete_microphone` is the microphone stack's own verdict on
/// the device.
pub fn normalize_device_support(device: &mut DeviceInfo, complete_microphone: bool)
    ensures
        same_but_support(*final(device), *old(device)),
        sorted_caps(final(device).capabilities@),
        forall|c: Capability| #[trigger]
            final(device).capabilities@.contains(c) <==> old(device).capabilities@.contains(c),
        sorted_caps(final(device).generic_capabilities@),
        forall|c: Capability| #[trigger]
            final(device).generic_capabilities@.contains(c)
                <==> old(device).generic_capabilities@.contains(c),
        final(device).support_level == support_for(
            old(device).capabilities@,
            owner_views_of(old(device).capability_owners@),
            old(device).support_level,
            old(device).protocol is Some,
            old(device).interfaces@.len() == 0,
            complete_microphone,
        ),
{
    let registered = device.support_level;
    let generic = sort_dedup(&device.generic_capabilities);
    device.generic_capabilities = generic;
    let caps = sort_dedup(&device.capabilities);
    device.capabilities = caps;
    let ghost before = *device;
    let has_protocol = device.protocol.is_some();
    let no_interfaces = device.interfaces.len() == 0;
    let level = support_level_of(
        &device.capabilities,
        &device.capability_owners,
        registered,
        has_protocol,
        no_interfaces,
        complete_microphone,
        device,
    );
    proof {
        lemma_support_same_set(
            before.capabilities@,
            old(device).capabilities@,
            owner_views_of(before.capability_owners@),
            registered,
            has_protocol,
            no_interfaces,
            complete_microphone,
        );
    }
    device.support_level = level;
}

// ------------------------------------------------------------ projection

pub open spec fn firmware_cap(c: Capability) -> bool {
    c == Capability::MicFirmwareInventory || c == Capability::MicFirmwareUpdate || c
        == Capability::MicFirmwareRecovery
}

/// A capability a client still sees when the microphone DSP is hidden from
/// it (`hide_dsp`) and the firmware capabilities are (`hide_fw`).
pub open spec fn shown_cap(c: Capability, hide_dsp: bool, hide_fw: bool) -> bool {
    (!hide_dsp || c != Capability::MicDsp) && (!hide_fw || !firmware_cap(c))
}

/// An owner a client still sees: hiding the microphone DSP hides its owners
/// and every owner of the input DSP backend.
pub open spec fn shown_owner(o: OwnerView, hide_dsp: bool, hide_fw: bool) -> bool {
    (!hide_dsp || (o.capability != Capability::MicDsp && o.backend != BackendKind::ForgeHxDsp)) && (!hide_fw
        || !firmware_cap(o.capability))
}

/// The capabilities a client still sees, in order.
pub open spec fn shown_caps(s: Seq<Capability>, hide_dsp: bool, hide_fw: bool) -> Seq<Capability>
    decreases s.len(),
{
    if s.len() == 0 {
        Seq::empty()
    } else if shown_cap(s.last(), hide_dsp, hide_fw) {
        shown_caps(s.drop_last(), hide_dsp, hide_fw).push(s.last())
    } else {
        shown_caps(s.drop_last(), hide_dsp, hide_fw)
    }
}

/// The owners a client still sees, in order.
pub open spec fn shown_owners(s: Seq<OwnerView>, hide_dsp: bool, hide_fw: bool) -> Seq<OwnerView>
    decreases s.len(),
{
    if s.len() == 0 {
        Seq::empty()
    } else if shown_owner(s.last(), hide_dsp, hide_fw) {
        shown_owners(s.drop_last(), hide_dsp, hide_fw).push(s.last())
    } else {
        shown_owners(s.drop_last(), hide_dsp, hide_fw)
    }
}

proof fn lemma_shown_caps_contents(s: Seq<Capability>, hide_dsp: bool, hide_fw: bool)
    ensures
        forall|c: Capability| #[trigger]
            shown_caps(s, hide_dsp, hide_fw).contains(c) <==> s.contains(c) && shown_cap(c, hide_dsp, hide_fw),
    decreases s.len(),
{
    if s.len() > 0 {
        let t = s.drop_last();
        lemma_shown_caps_contents(t, hide_dsp, hide_fw);
        let r = shown_caps(s, hide_dsp, hide_fw);
        let rt = shown_caps(t, hide_dsp, hide_fw);
        if shown_cap(s.last(), hide_dsp, hide_fw) {
            assert(r == rt.push(s.last()));
        } else {
            assert(r == rt);
        }
        assert forall|c: Capability| #[trigger] r.contains(c) <==> s.contains(c) && shown_cap(c, hide_dsp, hide_fw) by {
            if r.contains(c) {
                let k = choose|k: int| 0 <= k < r.len() && r[k] == c;
                if k < rt.len() {
                    assert(rt[k] == c);
                    assert(rt.contains(c));
                    let m = choose|m: int| 0 <= m < t.len() && t[m] == c;
                    assert(s[m] == c);
                } else {
                    assert(s[s.len() - 1] == c);
                }
            }
            if s.contains(c) && shown_cap(c, hide_dsp, hide_fw) {
                let m = choose|m: int| 0 <= m < s.len() && s[m] == c;
                if m < s.len() - 1 {
                    assert(t[m] == c);
                    assert(t.contains(c));
                    assert(rt.contains(c));
                    let k = choose|k: int| 0 <= k < rt.len() && rt[k] == c;
                    assert(r[k] == rt[k]);
                    assert(r[k] == c);
                } else {
                    assert(r[r.len() - 1] == c);
                }
            }
        }
    }
}

proof fn lemma_shown_owners_twice(s: Seq<OwnerView>)
    ensures
        shown_owners(shown_owners(s, true, false), false, true) == shown_owners(s, true, true),
    decreases s.len(),
{
    if s.len() > 0 {
        let t = s.drop_last();
        let x = s.last();
        lemma_shown_owners_twice(t);
        let a = shown_owners(s, true, false);
        if shown_owner(x, true, false) {
            assert(a == shown_owners(t, true, false).push(x));
            assert(a.drop_last() == shown_owners(t, true, false));
            assert(a.last() == x);
        } else {
            assert(a == shown_owners(t, true, false));
        }
    }
}

/// Support is decided by which capabilities a device lists, not by their
/// order or repeats.
proof fn lemma_support_for_contents(
    a: Seq<Capability>,
    b: Seq<Capability>,
    owners: Seq<OwnerView>,
    registered: SupportLevel,
    has_protocol: bool,
    no_interfaces: bool,
    complete_microphone: bool,
)
    requires
        forall|c: Capability| #[trigger] a.contains(c) <==> b.contains(c),
    ensures
        support_for(a, owners, registered, has_protocol, no_interfaces, complete_microphone) == support_for(
            b,
            owners,
            registered,
            has_protocol,
            no_interfaces,
            complete_microphone,
        ),
{
    if native_complete(a, owners, registered, has_protocol) {
        assert forall|c: Capability| b.contains(c) && c != Capability::Diagnostics implies #[trigger] first_is_native(owners, c) by {
            assert(a.contains(c));
        }
    }
    if native_complete(b, owners, registered, has_protocol) {
        assert forall|c: Capability| a.contains(c) && c != Capability::Diagnostics implies #[trigger] first_is_native(owners, c) by {
            assert(b.contains(c));
        }
    }
}

fn retain_caps(v: &Vec<Capability>, hide_dsp: bool, hide_fw: bool) -> (r: Vec<Capability>)
    ensures
        r@ == shown_caps(v@, hide_dsp, hide_fw),
{
    let mut out: Vec<Capability> = Vec::new();
    let mut i: usize = 0;
    while i < v.len()
        invariant
            i <= v@.len(),
            out@ == shown_caps(v@.take(i as int), hide_dsp, hide_fw),
        decreases v@.len() - i,
    {
        let c = v[i];
        let keep = (!hide_dsp || c != Capability::MicDsp) && (!hide_fw || !(c
            == Capability::MicFirmwareInventory || c == Capability::MicFirmwareUpdate || c
            == Capability::MicFirmwareRecovery));
        proof {
            let t1 = v@.take(i as int + 1);
            assert(t1.drop_last() =~= v@.take(i as int));
            assert(t1.last() == c);
        }
        if keep {
            out.push(c);
        }
        i = i + 1;
    }
    assert(v@.take(v@.len() as int) == v@);
    out
}

fn retain_owners(v: &Vec<CapabilityOwner>, hide_dsp: bool, hide_fw: bool) -> (r: Vec<CapabilityOwner>)
    ensures
        owner_views_of(r@) == shown_owners(owner_views_of(v@), hide_dsp, hide_fw),
{
    let mut out: Vec<CapabilityOwner> = Vec::new();
    let mut i: usize = 0;
    while i < v.len()
        invariant
            i <= v@.len(),
            owner_views_of(out@) == shown_owners(owner_views_of(v@.take(i as int)), hide_dsp, hide_fw),
        decreases v@.len() - i,
    {
        let o = &v[i];
        let keep = (!hide_dsp || (o.capability != Capability::MicDsp && o.backend
            != BackendKind::ForgeHxDsp)) && (!hide_fw || !(o.capability
            == Capability::MicFirmwareInventory || o.capability == Capability::MicFirmwareUpdate
            || o.capability == Capability::MicFirmwareRecovery));
        let ghost before = out@;
        proof {
            let t1 = owner_views_of(v@.take(i as int + 1));
            assert(t1.drop_last() =~= owner_views_of(v@.take(i as int)));
            assert(t1.last() == v@[i as int]@);
        }
        if keep {
            let d = o.duplicate();
            out.push(d);
            assert(owner_views_of(out@) =~= owner_views_of(before).push(d@));
        }
        i = i + 1;
    }
    assert(v@.take(v@.len() as int) == v@);
    out
}

/// `r` is `d` with what a client may not see hidden: the same device, its
/// capability lists sorted and without what is hidden, and only the owners
/// still shown.
pub open spec fn client_view(r: DeviceInfo, d: DeviceInfo, hide_dsp: bool, hide_fw: bool) -> bool {
    &&& same_but_support(r, DeviceInfo { capability_owners: r.capability_owners, ..d })
    &&& sorted_caps(r.capabilities@)
    &&& sorted_caps(r.generic_capabilities@)
    &&& forall|c: Capability| #[trigger]
        r.capabilities@.contains(c) <==> d.capabilities@.contains(c) && shown_cap(c, hide_dsp, hide_fw)
    &&& forall|c: Capability| #[trigger]
        r.generic_capabilities@.contains(c) <==> d.generic_capabilities@.contains(c) && shown_cap(
            c,
            hide_dsp,
            hide_fw,
        )
    &&& owner_views_of(r.capability_owners@) == shown_owners(
        owner_views_of(d.capability_owners@),
        hide_dsp,
        hide_fw,
    )
}

/// The support level decided again once a client's hidden parts are gone,
/// starting from `registered`.
pub open spec fn support_after_hiding(
    d: DeviceInfo,
    hide_dsp: bool,
    hide_fw: bool,
    registered: SupportLevel,
    complete_microphone: bool,
) -> SupportLevel {
    support_for(
        shown_caps(d.capabilities@, hide_dsp, hide_fw),
        shown_owners(owner_views_of(d.capability_owners@), hide_dsp, hide_fw),
        registered,
        d.protocol is Some,
        d.interfaces@.len() == 0,
        complete_microphone,
    )
}

/// Hides the capabilities and owners a client may not see, and decides the
/// support level again for what is left.
fn hide_for_client(device: &mut DeviceInfo, hide_dsp: bool, hide_fw: bool, complete_microphone: bool)
    ensures
        client_view(*final(device), *old(device), hide_dsp, hide_fw),
        final(device).support_level == support_after_hiding(
            *old(device),
            hide_dsp,
            hide_fw,
            old(device).support_level,
            complete_microphone,
        ),
{
    let caps = retain_caps(&device.capabilities, hide_dsp, hide_fw);
    device.capabilities = caps;
    let generic = retain_caps(&device.generic_capabilities, hide_dsp, hide_fw);
    device.generic_capabilities = generic;
    let owners = retain_owners(&device.capability_owners, hide_dsp, hide_fw);
    device.capability_owners = owners;
    proof {
        lemma_shown_caps_contents(old(device).capabilities@, hide_dsp, hide_fw);
        lemma_shown_caps_contents(old(device).generic_capabilities@, hide_dsp, hide_fw);
    }
    normalize_device_support(device, complete_microphone);
}

/// The support level a client older than version 6 is shown: for a client
/// older than 4 the microphone DSP is hidden first and the level decided for
/// what is left, with `mic_without_dsp` as the microphone stack's verdict on
/// that device; then the firmware capabilities are hidden and the level is
/// decided again from that one, with `mic_shown` as its verdict on the device
/// the client is finally shown.
pub open spec fn projected_support(
    device: DeviceInfo,
    version: u32,
    mic_without_dsp: bool,
    mic_shown: bool,
) -> SupportLevel {
    let first = if version < 4 {
        support_after_hiding(device, true, false, device.support_level, mic_without_dsp)
    } else {
        device.support_level
    };
    support_after_hiding(device, version < 4, true, first, mic_shown)
}

#[verifier::spinoff_prover]
proof fn lemma_hiding_fields_in_two_steps(d0: DeviceInfo, d1: DeviceInfo, d2: DeviceInfo)
    requires
        client_view(d1, d0, true, false),
        client_view(d2, d1, false, true),
    ensures
        client_view(d2, d0, true, true),
{
    lemma_shown_owners_twice(owner_views_of(d0.capability_owners@));
    assert forall|c: Capability| #[trigger] d2.capabilities@.contains(c) <==> d0.capabilities@.contains(c)
        && shown_cap(c, true, true) by {
        assert(d2.capabilities@.contains(c) <==> d1.capabilities@.contains(c) && shown_cap(c, false, true));
        assert(d1.capabilities@.contains(c) <==> d0.capabilities@.contains(c) && shown_cap(c, true, false));
    }
    assert forall|c: Capability| #[trigger] d2.generic_capabilities@.contains(c)
        <==> d0.generic_capabilities@.contains(c) && shown_cap(c, true, true) by {
        assert(d2.generic_capabilities@.contains(c) <==> d1.generic_capabilities@.contains(c) && shown_cap(
            c,
            false,
            true,
        ));
        assert(d1.generic_capabilities@.contains(c) <==> d0.generic_capabilities@.contains(c) && shown_cap(
            c,
            true,
            false,
        ));
    }
}

#[verifier::spinoff_prover]
proof fn lemma_hiding_support_in_two_steps(d0: DeviceInfo, d1: DeviceInfo, level: SupportLevel, complete_microphone: bool)
    requires
        forall|c: Capability| #[trigger]
            d1.capabilities@.contains(c) <==> d0.capabilities@.contains(c) && shown_cap(c, true, false),
        owner_views_of(d1.capability_owners@) == shown_owners(owner_views_of(d0.capability_owners@), true, false),
        d1.protocol == d0.protocol,
        d1.interfaces == d0.interfaces,
    ensures
        support_after_hiding(d1, false, true, level, complete_microphone) == support_after_hiding(
            d0,
            true,
            true,
            level,
            complete_microphone,
        ),
{
    lemma_shown_owners_twice(owner_views_of(d0.capability_owners@));
    lemma_shown_caps_contents(d1.capabilities@, false, true);
    lemma_shown_caps_contents(d0.capabilities@, true, true);
    let a = shown_caps(d1.capabilities@, false, true);
    let b = shown_caps(d0.capabilities@, true, true);
    assert forall|c: Capability| #[trigger] a.contains(c) <==> b.contains(c) by {
        assert(d1.capabilities@.contains(c) <==> d0.capabilities@.contains(c) && shown_cap(c, true, false));
    }
    lemma_support_for_contents(
        a,
        b,
        shown_owners(owner_views_of(d0.capability_owners@), true, true),
        level,
        d0.protocol is Some,
        d0.interfaces@.len() == 0,
        complete_microphone,
    );
}

/// The device as a client of `version` sees it: from version 6 on as it is;
/// before 6 without firmware capabilities and owners, before 4 also without
/// the microphone DSP and its backend, with the support level decided again
/// for what is left. The microphone stack judges each trimmed device itself:
/// `mic_without_dsp` is its verdict once the DSP is hidden (used only before
/// version 4), `mic_shown` its verdict on the device the client is shown.
pub fn project_device_for_protocol(
    device: DeviceInfo,
    protocol_version: u32,
    mic_without_dsp: bool,
    mic_shown: bool,
) -> (r: DeviceInfo)
    ensures
        protocol_version >= 6 ==> r == device,
        protocol_version < 6 ==> client_view(r, device, protocol_version < 4, true) && r.support_level
            == projected_support(device, protocol_version, mic_without_dsp, mic_shown),
{
    if protocol_version >= 6 {
        return device;
    }
    let ghost d0 = device;
    let mut d = device;
    if protocol_version < 4 {
        hide_for_client(&mut d, true, false, mic_without_dsp);
        let ghost d1 = d;
        hide_for_client(&mut d, false, true, mic_shown);
        proof {
            lemma_hiding_fields_in_two_steps(d0, d1, d);
            lemma_hiding_support_in_two_steps(d0, d1, d1.support_level, mic_shown);
        }
    } else {
        hide_for_client(&mut d, false, true, mic_shown);
    }
    d
}

/// A backend status as plain values: backend, health (its variant and any
/// error text) and detail.
pub open spec fn status_view(b: BackendStatus) -> (BackendKind, (int, Seq<char>), Option<Seq<char>>) {
    (b.backend, health_view(b.health), opt_view(b.detail))
}

/// The backends a client of `version` is told about: the input DSP backend
/// only from version 4 on.
pub open spec fn visible_statuses(s: Seq<(BackendKind, (int, Seq<char>), Option<Seq<char>>)>, version: u32) -> Seq<
    (BackendKind, (int, Seq<char>), Option<Seq<char>>),
>
    decreases s.len(),
{
    if s.len() == 0 {
        Seq::empty()
    } else if version >= 4 || s.last().0 != BackendKind::ForgeHxDsp {
        visible_statuses(s.drop_last(), version).push(s.last())
    } else {
        visible_statuses(s.drop_last(), version)
    }
}

pub open spec fn status_views(s: Seq<BackendStatus>) -> Seq<(BackendKind, (int, Seq<char>), Option<Seq<char>>)> {
    s.map_values(|b: BackendStatus| status_view(b))
}

/// The backend statuses a client of `protocol_version` is told about, each
/// copied unchanged (backend, health and detail); the input DSP backend only
/// from version 4 on.
pub fn project_backends_for_protocol(backends: &[BackendStatus], protocol_version: u32) -> (r: Vec<
    BackendStatus,
>)
    ensures
        status_views(r@) == visible_statuses(status_views(backends@), protocol_version),
{
    let mut out: Vec<BackendStatus> = Vec::new();
    let mut i: usize = 0;
    while i < backends.len()
        invariant
            i <= backends@.len(),
            status_views(out@) == visible_statuses(
                status_views(backends@.take(i as int)),
                protocol_version,
            ),
        decreases backends@.len() - i,
    {
        let b = &backends[i];
        let ghost before = out@;
        proof {
            let t1 = status_views(backends@.take(i as int + 1));
            assert(t1.drop_last() =~= status_views(backends@.take(i as int)));
            assert(t1.last() == status_view(backends@[i as int]));
        }
        if protocol_version >= 4 || b.backend != BackendKind::ForgeHxDsp {
            let copy = BackendStatus {
                backend: b.backend,
                health: copy_health(&b.health),
                detail: copy_opt(&b.detail),
            };
            out.push(copy);
            assert(status_views(out@) =~= status_views(before).push(status_view(*b)));
        }
        i = i + 1;
    }
    assert(backends@.take(backends@.len() as int) == backends@);
    out
}

// ------------------------------------------------------------ audio devices

/// Appends `c` unless it is already there.
pub open spec fn add_missing(s: Seq<Capability>, c: Capability) -> Seq<Capability> {
    if s.contains(c) {
        s
    } else {
        s.push(c)
    }
}

fn push_missing(v: &mut Vec<Capability>, c: Capability)
    ensures
        final(v)@ == add_missing(old(v)@, c),
{
    if !crate::model::caps_contain(v, c) {
        v.push(c);
    }
}

/// The generic audio capabilities: audio, volume and mute, then microphone
/// for a source or EQ for a sink, each added once.
pub open spec fn with_audio_caps(s: Seq<Capability>, is_source: bool) -> Seq<Capability> {
    add_missing(
        add_missing(add_missing(add_missing(s, Capability::Audio), Capability::Volume), Capability::Mute),
        if is_source {
            Capability::Microphone
        } else {
            Capability::Eq
        },
    )
}

pub fn push_generic_audio_capabilities(device: &mut DeviceInfo, is_source: bool)
    ensures
        *final(device) == (DeviceInfo {
            generic_capabilities: final(device).generic_capabilities,
            ..*old(device)
        }),
        final(device).generic_capabilities@ == with_audio_caps(
            old(device).generic_capabilities@,
            is_source,
        ),
{
    push_missing(&mut device.generic_capabilities, Capability::Audio);
    push_missing(&mut device.generic_capabilities, Capability::Volume);
    push_missing(&mut device.generic_capabilities, Capability::Mute);
    if is_source {
        push_missing(&mut device.generic_capabilities, Capability::Microphone);
    } else {
        push_missing(&mut device.generic_capabilities, Capability::Eq);
    }
}

/// An audio node as the monitor-sink choice reads it.
#[derive(Debug, Clone)]
pub struct AudioEndpoint {
    pub id: u32,
    pub name: String,
    pub kind: String,
}

/// A HyperX microphone keeps its processed ForgeHX source even when its raw
/// capture node is missing.
pub fn should_keep_forgehx_mic_source(device: &DeviceInfo) -> (r: bool)
    ensures
        r == (device.vendor_family is HyperX && device.device_class == DeviceClass::Microphone),
{
    device.is_hyperx() && device.device_class == DeviceClass::Microphone
}

// ------------------------------------------------------------ audio nodes

/// A node belongs to a device when their names, reduced to lower-case
/// letters and digits, are both non-empty and one contains the other.
pub open spec fn audio_name_matches(node: AudioEndpoint, d: DiscoveredDevice) -> bool {
    let n = alnum_lower(node.name@);
    let m = alnum_lower(d.info.name@);
    m.len() > 0 && n.len() > 0 && (contains(n, m) || contains(m, n))
}

pub open spec fn matches_node(node: AudioEndpoint) -> spec_fn(DiscoveredDevice) -> bool {
    |d: DiscoveredDevice| audio_name_matches(node, d)
}

pub open spec fn is_source_node(node: AudioEndpoint) -> bool {
    node.kind@ == "source"@
}

pub open spec fn node_path(node: AudioEndpoint) -> Seq<char> {
    "pipewire:"@ + dec_str(node.id as nat)
}

/// The interface a node adds to a device it belongs to.
pub open spec fn is_node_interface(x: DeviceInterface, node: AudioEndpoint, info: DeviceInfo) -> bool {
    &&& x.source == InterfaceSource::Audio
    &&& x.path@ == node_path(node)
    &&& x.vendor_id == nonzero(info.vendor_id)
    &&& x.product_id == nonzero(info.product_id)
    &&& x.interface_number is None
    &&& x.usage_page is None
    &&& x.usage is None
    &&& x.audio_node_id == Some(node.id)
    &&& x.usb_parent is None
}

/// The raw record of a node, with the ids, manufacturer and serial given.
pub open spec fn is_node_raw(
    r: RawInterface,
    node: AudioEndpoint,
    vendor_id: u16,
    product_id: u16,
    manufacturer: Option<Seq<char>>,
    serial: Option<Seq<char>>,
) -> bool {
    &&& r.source == InterfaceSource::Audio
    &&& r.path@ == node_path(node)
    &&& r.vendor_id == vendor_id
    &&& r.product_id == product_id
    &&& opt_view(r.manufacturer) == manufacturer
    &&& opt_view(r.product) == Some(node.name@)
    &&& opt_view(r.serial) == serial
    &&& r.interface_number is None
    &&& r.usage_page is None
    &&& r.usage is None
    &&& r.audio_node_id == Some(node.id)
    &&& r.usb_parent is None
    &&& r.usb_class_codes@ == seq![1u8]
}

/// The device an audio node with no device of its own becomes: named after
/// the node, identified by its stable audio id, a microphone for a source
/// and a headset otherwise, with generic controls only.
pub open spec fn is_audio_device(d: DiscoveredDevice, node: AudioEndpoint) -> bool {
    let raw = d.raw_interfaces@[0];
    let info = d.info;
    &&& d.raw_interfaces@.len() == 1
    &&& is_node_raw(raw, node, 0, 0, audio_vendor(node.name@, 0), None)
    &&& info.id.0@ == audio_device_id(node.name@)
    &&& info.name@ == node.name@
    &&& opt_view(info.manufacturer) == audio_vendor(node.name@, 0)
    &&& info.vendor_id == 0
    &&& info.product_id == 0
    &&& info.serial is None
    &&& family_view(info.vendor_family) == family_of(raw)
    &&& info.device_class == (if is_source_node(node) {
        DeviceClass::Microphone
    } else {
        DeviceClass::Headset
    })
    &&& info.support_level == SupportLevel::GenericControls
    &&& info.connection_kind == ConnectionKind::Audio
    &&& info.interfaces@.len() == 1
    &&& is_interface_of(info.interfaces@[0], raw)
    &&& info.capabilities@ == seq![Capability::Diagnostics]
    &&& info.generic_capabilities@ == with_audio_caps(Seq::empty(), is_source_node(node))
    &&& info.capability_owners@.len() == 0
    &&& info.battery_percent is None
    &&& info.battery_state is None
    &&& info.protocol is None
}

/// One node attached: to the first device it belongs to, as an audio
/// interface with the generic audio controls, making the device composite;
/// or, where it belongs to none, as a device of its own at the end.
pub open spec fn node_attached(before: Seq<DiscoveredDevice>, node: AudioEndpoint, after: Seq<DiscoveredDevice>) -> bool {
    match first_index(before, matches_node(node)) {
        Some(m) => {
            let b = before[m];
            let a = after[m];
            &&& after.len() == before.len()
            &&& forall|i: int| 0 <= i < before.len() && i != m ==> #[trigger] after[i] == before[i]
            &&& a.info == DeviceInfo {
                generic_capabilities: a.info.generic_capabilities,
                interfaces: a.info.interfaces,
                connection_kind: a.info.connection_kind,
                ..b.info
            }
            &&& a.info.generic_capabilities@ == with_audio_caps(
                b.info.generic_capabilities@,
                is_source_node(node),
            )
            &&& a.info.interfaces@.drop_last() == b.info.interfaces@
            &&& a.info.interfaces@.len() == b.info.interfaces@.len() + 1
            &&& is_node_interface(a.info.interfaces@.last(), node, b.info)
            &&& a.info.connection_kind == ConnectionKind::Composite
            &&& a.raw_interfaces@.drop_last() == b.raw_interfaces@
            &&& a.raw_interfaces@.len() == b.raw_interfaces@.len() + 1
            &&& is_node_raw(
                a.raw_interfaces@.last(),
                node,
                b.info.vendor_id,
                b.info.product_id,
                opt_view(b.info.manufacturer),
                opt_view(b.info.serial),
            )
        },
        None => {
            &&& after.len() == before.len() + 1
            &&& after.drop_last() == before
            &&& is_audio_device(after.last(), node)
        },
    }
}

/// The nodes attached one after the other, each seeing the devices the
/// earlier ones left.
pub open spec fn nodes_attached(before: Seq<DiscoveredDevice>, nodes: Seq<AudioEndpoint>, after: Seq<DiscoveredDevice>) -> bool {
    exists|states: Seq<Seq<DiscoveredDevice>>|
        {
            &&& states.len() == nodes.len() + 1
            &&& states[0] == before
            &&& states.last() == after
            &&& forall|j: int| 0 <= j < nodes.len() ==> node_attached(states[j], #[trigger] nodes[j], states[j + 1])
        }
}

fn node_path_of(node: &AudioEndpoint) -> (r: String)
    ensures
        r@ == node_path(*node),
{
    string_from(&concat(&str_chars("pipewire:"), &fmt_dec(node.id as u64)))
}

fn node_raw(
    node: &AudioEndpoint,
    vendor_id: u16,
    product_id: u16,
    manufacturer: Option<String>,
    serial: Option<String>,
) -> (r: RawInterface)
    ensures
        is_node_raw(r, *node, vendor_id, product_id, opt_view(manufacturer), opt_view(serial)),
{
    let codes: Vec<u8> = vec![1u8];
    assert(codes@ =~= seq![1u8]);
    RawInterface {
        source: InterfaceSource::Audio,
        path: node_path_of(node),
        vendor_id,
        product_id,
        manufacturer,
        product: Some(copy_string(&node.name)),
        serial,
        interface_number: None,
        usage_page: None,
        usage: None,
        audio_node_id: Some(node.id),
        usb_parent: None,
        usb_class_codes: codes,
    }
}

fn attach_one(discovered: &mut Vec<DiscoveredDevice>, node: &AudioEndpoint)
    ensures
        node_attached(old(discovered)@, *node, final(discovered)@),
{
    let ghost before = discovered@;
    let normalized = normalize_alnum(&str_chars(node.name.as_str()));
    let is_source = chars_eq(&str_chars(node.kind.as_str()), &str_chars("source"));
    let mut k: usize = 0;
    while k < discovered.len()
        invariant
            discovered@ == before,
            k <= before.len(),
            normalized@ == alnum_lower(node.name@),
            forall|i: int| 0 <= i < k ==> !matches_node(*node)(#[trigger] before[i]),
        ensures
            k <= before.len(),
            forall|i: int| 0 <= i < k ==> !matches_node(*node)(#[trigger] before[i]),
            k < before.len() ==> matches_node(*node)(before[k as int]),
        decreases before.len() - k,
    {
        let name = normalize_alnum(&str_chars(discovered[k].info.name.as_str()));
        if name.len() > 0 && normalized.len() > 0 && (contains_sub(&normalized, &name) || contains_sub(
            &name,
            &normalized,
        )) {
            break;
        }
        k = k + 1;
    }
    proof {
        lemma_first_index_is(before, matches_node(*node), k as int);
    }
    if k < discovered.len() {
        let mut d = discovered.remove(k);
        let ghost b = d;
        push_generic_audio_capabilities(&mut d.info, is_source);
        let iface = DeviceInterface {
            source: InterfaceSource::Audio,
            path: node_path_of(node),
            vendor_id: if d.info.vendor_id != 0 {
                Some(d.info.vendor_id)
            } else {
                None
            },
            product_id: if d.info.product_id != 0 {
                Some(d.info.product_id)
            } else {
                None
            },
            interface_number: None,
            usage_page: None,
            usage: None,
            audio_node_id: Some(node.id),
            usb_parent: None,
        };
        d.info.interfaces.push(iface);
        d.info.connection_kind = ConnectionKind::Composite;
        let raw = node_raw(
            node,
            d.info.vendor_id,
            d.info.product_id,
            copy_opt(&d.info.manufacturer),
            copy_opt(&d.info.serial),
        );
        d.raw_interfaces.push(raw);
        let ghost mid = discovered@;
        discovered.insert(k, d);
        assert(forall|i: int| 0 <= i < before.len() && i != k ==> #[trigger] discovered@[i] == before[i]);
        assert(d.info.interfaces@.drop_last() == b.info.interfaces@);
        assert(d.raw_interfaces@.drop_last() == b.raw_interfaces@);
        assert(discovered@[k as int] == d);
        assert(is_source == is_source_node(*node));
        assert(first_index(before, matches_node(*node)) == Some(k as int));
        assert(node_attached(before, *node, discovered@));
    } else {
        let vendor = vendor_name_from_audio(node.name.as_str());
        let raw = node_raw(node, 0, 0, vendor, None);
        let vendor_family = vendor_family(&raw);
        let mut generic: Vec<Capability> = Vec::new();
        let mut info = DeviceInfo {
            id: stable_audio_device_id(node.name.as_str()),
            name: copy_string(&node.name),
            manufacturer: copy_opt(&raw.manufacturer),
            vendor_id: 0,
            product_id: 0,
            serial: None,
            vendor_family,
            device_class: if is_source {
                DeviceClass::Microphone
            } else {
                DeviceClass::Headset
            },
            support_level: SupportLevel::GenericControls,
            connection_kind: ConnectionKind::Audio,
            interfaces: vec![interface_from_raw(&raw)],
            capabilities: vec![Capability::Diagnostics],
            generic_capabilities: generic,
            capability_owners: Vec::new(),
            battery_percent: None,
            battery_state: None,
            protocol: None,
        };
        push_generic_audio_capabilities(&mut info, is_source);
        let raws = vec![raw];
        let ghost dev = DiscoveredDevice { info, raw_interfaces: raws };
        assert(raws@[0] == raw);
        assert(info.capabilities@ =~= seq![Capability::Diagnostics]);
        assert(info.interfaces@.len() == 1);
        assert(is_source == is_source_node(*node));
        assert(is_audio_device(dev, *node));
        discovered.push(DiscoveredDevice { info, raw_interfaces: raws });
        assert(discovered@.drop_last() == before);
        assert(node_attached(before, *node, discovered@));
    }
}

/// Attaches the audio nodes that discovery found to the devices they
/// belong to, or adds a device for each that belongs to none (see
/// `nodes_attached`).
pub fn attach_audio_nodes(discovered: &mut Vec<DiscoveredDevice>, nodes: &[AudioEndpoint])
    ensures
        nodes_attached(old(discovered)@, nodes@, final(discovered)@),
{
    let ghost before = discovered@;
    let ghost mut states: Seq<Seq<DiscoveredDevice>> = seq![before];
    let mut j: usize = 0;
    while j < nodes.len()
        invariant
            j <= nodes@.len(),
            states.len() == j + 1,
            states[0] == before,
            states.last() == discovered@,
            forall|i: int| 0 <= i < j ==> node_attached(states[i], #[trigger] nodes@[i], states[i + 1]),
        decreases nodes@.len() - j,
    {
        let ghost prev = states;
        attach_one(discovered, &nodes[j]);
        proof {
            states = prev.push(discovered@);
            assert forall|i: int| 0 <= i < j + 1 implies node_attached(states[i], #[trigger] nodes@[i], states[i + 1]) by {
                assert(states[i] == prev[i]);
                if i < j {
                    assert(states[i + 1] == prev[i + 1]);
                }
            }
        }
        j = j + 1;
    }
}


/// How suitable a node is as a wired monitor: headphone sinks first, then
/// analog ALSA sinks; Bluetooth and everything else never.
pub open spec fn monitor_rank(n: AudioEndpoint) -> Option<nat> {
    let lower = lowercase(n.name@);
    if n.kind@ != "sink"@ {
        None
    } else if contains(lower, "bluez"@) || contains(lower, "bluetooth"@) {
        None
    } else if contains(lower, "headphone"@) || contains(lower, "headphones"@) {
        Some(0)
    } else if contains(lower, "analog"@) && contains(lower, "alsa"@) {
        Some(1)
    } else {
        None
    }
}

/// `(rank, id)` of `a` is smaller than that of `b`.
pub open spec fn ranks_before(a: AudioEndpoint, b: AudioEndpoint) -> bool {
    match (monitor_rank(a), monitor_rank(b)) {
        (Some(x), Some(y)) => x < y || (x == y && a.id < b.id),
        _ => false,
    }
}

/// `nodes[i]` is the wired monitor: a candidate with the smallest rank and
/// then id, the first of equals.
pub open spec fn is_monitor_choice(nodes: Seq<AudioEndpoint>, i: int) -> bool {
    &&& 0 <= i < nodes.len()
    &&& monitor_rank(nodes[i]) is Some
    &&& forall|j: int| 0 <= j < nodes.len() ==> !ranks_before(#[trigger] nodes[j], nodes[i])
    &&& forall|j: int|
        0 <= j < i && monitor_rank(#[trigger] nodes[j]) is Some ==> ranks_before(nodes[i], nodes[j])
}

fn has(s: &Vec<char>, lit: &str) -> (r: bool)
    ensures
        r == contains(s@, lit@),
{
    contains_sub(s, &str_chars(lit))
}

fn monitor_rank_of(n: &AudioEndpoint) -> (r: Option<u8>)
    ensures
        match monitor_rank(*n) {
            Some(x) => r == Some(x as u8),
            None => r is None,
        },
{
    if !chars_eq(&str_chars(n.kind.as_str()), &str_chars("sink")) {
        return None;
    }
    let lower = to_lowercase(&str_chars(n.name.as_str()));
    if has(&lower, "bluez") || has(&lower, "bluetooth") {
        None
    } else if has(&lower, "headphone") || has(&lower, "headphones") {
        Some(0)
    } else if has(&lower, "analog") && has(&lower, "alsa") {
        Some(1)
    } else {
        None
    }
}

/// The sink a microphone monitor plays through, if there is a wired one.
pub fn select_wired_monitor_sink(nodes: &[AudioEndpoint]) -> (r: Option<usize>)
    ensures
        r matches Some(i) ==> is_monitor_choice(nodes@, i as int),
        r is None ==> forall|j: int| 0 <= j < nodes@.len() ==> monitor_rank(#[trigger] nodes@[j]) is None,
{
    let mut best: Option<usize> = None;
    let mut best_rank: u8 = 0;
    let mut i: usize = 0;
    while i < nodes.len()
        invariant
            i <= nodes@.len(),
            best is None ==> forall|j: int| 0 <= j < i ==> monitor_rank(#[trigger] nodes@[j]) is None,
            best matches Some(b) ==> {
                &&& b < i
                &&& monitor_rank(nodes@[b as int]) == Some(best_rank as nat)
                &&& forall|j: int| 0 <= j < i ==> !ranks_before(#[trigger] nodes@[j], nodes@[b as int])
                &&& forall|j: int|
                    0 <= j < b && monitor_rank(#[trigger] nodes@[j]) is Some ==> ranks_before(
                        nodes@[b as int],
                        nodes@[j],
                    )
            },
        decreases nodes@.len() - i,
    {
        match monitor_rank_of(&nodes[i]) {
            Some(rank) => {
                let better = match best {
                    None => true,
                    Some(b) => rank < best_rank || (rank == best_rank && nodes[i].id < nodes[b].id),
                };
                if better {
                    best = Some(i);
                    best_rank = rank;
                }
            },
            None => {},
        }
        i = i + 1;
    }
    best
}

/// FNV-1a, 64-bit, over a byte sequence.
pub open spec fn fnv1a(bytes: Seq<u8>) -> u64
    decreases bytes.len(),
{
    if bytes.len() == 0 {
        0xcbf29ce484222325u64
    } else {
        (fnv1a(bytes.drop_last()) ^ (bytes.last() as u64)).wrapping_mul(0x100000001b3u64)
    }
}

/// The id of an audio-only device: `audio-name:` and the FNV-1a hash of its
/// normalised name (of the raw name where nothing is left), in 16 hex digits.
pub open spec fn audio_device_id(name: Seq<char>) -> Seq<char> {
    let seed = if alnum_lower(name).len() > 0 {
        alnum_lower(name)
    } else {
        name
    };
    "audio-name:"@ + hex_str(fnv1a(encode_utf8(seed)) as nat, 16)
}

pub fn stable_audio_device_id(node_name: &str) -> (r: DeviceId)
    ensures
        r.0@ == audio_device_id(node_name@),
{
    let normalized = normalize_alnum(&str_chars(node_name));
    let seed = if normalized.len() > 0 {
        string_from(&normalized)
    } else {
        owned(node_name)
    };
    let bytes = seed.as_str().as_bytes();
    let mut hash: u64 = 0xcbf29ce484222325u64;
    let mut i: usize = 0;
    while i < bytes.len()
        invariant
            i <= bytes@.len(),
            hash == fnv1a(bytes@.take(i as int)),
        decreases bytes@.len() - i,
    {
        assert(bytes@.take(i as int + 1).drop_last() == bytes@.take(i as int));
        hash = (hash ^ (bytes[i] as u64)).wrapping_mul(0x100000001b3u64);
        i = i + 1;
    }
    assert(bytes@.take(bytes@.len() as int) == bytes@);
    let text = concat(&str_chars("audio-name:"), &fmt_hex(hash as u128, 16));
    DeviceId(string_from(&text))
}

/// The vendors an audio node's name is searched for, in order.
pub open spec fn audio_vendors() -> Seq<Seq<char>> {
    seq!["HyperX"@, "Logitech"@, "Corsair"@, "Razer"@, "SteelSeries"@, "Kingston"@, "HP"@]
}

/// The first vendor whose name occurs in the node's name, ignoring ASCII case.
pub open spec fn audio_vendor(name: Seq<char>, k: nat) -> Option<Seq<char>>
    decreases audio_vendors().len() - k,
{
    if k >= audio_vendors().len() {
        None
    } else if contains(lowercase(name), lowercase(audio_vendors()[k as int])) {
        Some(audio_vendors()[k as int])
    } else {
        audio_vendor(name, k + 1)
    }
}

pub fn vendor_name_from_audio(name: &str) -> (r: Option<String>)
    ensures
        match audio_vendor(name@, 0) {
            Some(v) => r matches Some(s) && s@ == v,
            None => r is None,
        },
{
    let lower = to_lowercase(&str_chars(name));
    let vendors = ["HyperX", "Logitech", "Corsair", "Razer", "SteelSeries", "Kingston", "HP"];
    let mut k: usize = 0;
    while k < 7
        invariant
            k <= 7,
            lower@ == lowercase(name@),
            vendors@.len() == 7,
            forall|j: int| 0 <= j < 7 ==> #[trigger] vendors@[j]@ == audio_vendors()[j],
            audio_vendor(name@, 0) == audio_vendor(name@, k as nat),
        decreases 7 - k,
    {
        let v = vendors[k];
        assert(v@ == audio_vendors()[k as int]);
        if contains_sub(&lower, &to_lowercase(&str_chars(v))) {
            return Some(owned(v));
        }
        k = k + 1;
    }
    None
}

/// The USB ids in a ratbagd model string `usb:<vid>:<pid>[:...]`, each in
/// hexadecimal.
pub open spec fn usb_model_ids(model: Seq<char>) -> Option<(u16, u16)> {
    match strip_prefix_spec(model, "usb:"@) {
        None => None,
        Some(t) => match find(t, ":"@) {
            None => None,
            Some(k) => {
                let rest = t.skip(k as int + 1);
                let second = match find(rest, ":"@) {
                    Some(k2) => rest.take(k2 as int),
                    None => rest,
                };
                match (parse_bounded(t.take(k as int), 16, 65535), parse_bounded(second, 16, 65535)) {
                    (Some(v), Some(p)) => Some((v as u16, p as u16)),
                    _ => None,
                }
            },
        },
    }
}

pub fn parse_ratbag_usb_model(model: &str) -> (r: Option<(u16, u16)>)
    ensures
        r == usb_model_ids(model@),
{
    proof {
        reveal_strlit(":");
    }
    let text = match strip_prefix(&str_chars(model), &str_chars("usb:")) {
        Some(t) => t,
        None => return None,
    };
    let colon = str_chars(":");
    let k = match find_sub(&text, &colon) {
        Some(k) => k,
        None => return None,
    };
    proof {
        crate::text::lemma_find_bound(text@, colon@);
        assert(colon@ == ":"@);
        assert(colon@.len() == 1);
        assert(text@.len() == text.len());
    }
    let first = slice_of(&text, 0, k);
    let rest = slice_of(&text, k + 1, text.len());
    let second = match find_sub(&rest, &colon) {
        Some(k2) => {
            proof {
                crate::text::lemma_find_bound(rest@, colon@);
            }
            slice_of(&rest, 0, k2)
        },
        None => rest,
    };
    assert(first@ == text@.take(k as int));
    assert(rest@ == text@.skip(k as int + 1));
    match (parse_num(&first, 16, 65535), parse_num(&second, 16, 65535)) {
        (Some(v), Some(p)) => Some((v as u16, p as u16)),
        _ => None,
    }
}

// ------------------------------------------------------------ errors

/// The health a backend is reported with after it failed with `e`.
pub fn health_from_backend_error(error: &BackendError) -> (r: BackendHealth)
    ensures
        match error {
            BackendError::Unavailable(_) => r is Unavailable,
            BackendError::Protocol(_) => r is ProtocolMismatch,
            BackendError::Ambiguous(_) => r is AmbiguousDeviceMatch,
            BackendError::Invalid(m) => r matches BackendHealth::BackendError(s) && s@ == m@,
            BackendError::Io(m) => r matches BackendHealth::BackendError(s) && s@ == m@,
        },
{
    match error {
        BackendError::Unavailable(_) => BackendHealth::Unavailable,
        BackendError::Protocol(_) => BackendHealth::ProtocolMismatch,
        BackendError::Ambiguous(_) => BackendHealth::AmbiguousDeviceMatch,
        BackendError::Invalid(m) => BackendHealth::BackendError(copy_string(m)),
        BackendError::Io(m) => BackendHealth::BackendError(copy_string(m)),
    }
}

/// A backend failure as a daemon error; an invalid request is reported as a
/// protocol error.
pub fn backend_error(error: BackendError) -> (r: ForgeHxError)
    ensures
        match error {
            BackendError::Unavailable(m) => r == ForgeHxError::BackendUnavailable(m),
            BackendError::Protocol(m) => r == ForgeHxError::BackendProtocol(m),
            BackendError::Ambiguous(m) => r == ForgeHxError::AmbiguousDevice(m),
            BackendError::Invalid(m) => r == ForgeHxError::BackendProtocol(m),
            BackendError::Io(m) => r == ForgeHxError::Io(m),
        },
{
    match error {
        BackendError::Unavailable(v) => ForgeHxError::BackendUnavailable(v),
        BackendError::Protocol(v) => ForgeHxError::BackendProtocol(v),
        BackendError::Ambiguous(v) => ForgeHxError::AmbiguousDevice(v),
        BackendError::Invalid(v) => ForgeHxError::BackendProtocol(v),
        BackendError::Io(v) => ForgeHxError::Io(v),
    }
}

/// The reply code of a daemon error.
pub open spec fn error_code_spec(e: ForgeHxError) -> Seq<char> {
    match e {
        ForgeHxError::Unsupported(_) => "unsupported"@,
        ForgeHxError::DeviceNotFound(_) => "device_not_found"@,
        ForgeHxError::BackendUnavailable(_) => "backend_unavailable"@,
        ForgeHxError::BackendProtocol(_) => "backend_protocol"@,
        ForgeHxError::AmbiguousDevice(_) => "ambiguous_device"@,
        ForgeHxError::Permission(_) => "permission"@,
        ForgeHxError::AudioUnavailable(_) => "audio_unavailable"@,
        ForgeHxError::ProtocolVersion { .. } => "protocol_version"@,
        ForgeHxError::InvalidProfile(_) => "profile"@,
        ForgeHxError::UnsupportedSchema(_) => "profile"@,
        ForgeHxError::Io(_) => "io"@,
    }
}

/// The error reply for a daemon error: its code and its text.
pub fn error_reply(error: &ForgeHxError) -> (r: ErrorReply)
    ensures
        r.code@ == error_code_spec(*error),
        r.message@ == error.text(),
{
    let code = match error {
        ForgeHxError::Unsupported(_) => "unsupported",
        ForgeHxError::DeviceNotFound(_) => "device_not_found",
        ForgeHxError::BackendUnavailable(_) => "backend_unavailable",
        ForgeHxError::BackendProtocol(_) => "backend_protocol",
        ForgeHxError::AmbiguousDevice(_) => "ambiguous_device",
        ForgeHxError::Permission(_) => "permission",
        ForgeHxError::AudioUnavailable(_) => "audio_unavailable",
        ForgeHxError::ProtocolVersion { .. } => "protocol_version",
        ForgeHxError::InvalidProfile(_) => "profile",
        ForgeHxError::UnsupportedSchema(_) => "profile",
        ForgeHxError::Io(_) => "io",
    };
    ErrorReply { code: owned(code), message: error.message() }
}

/// The reply code of a firmware error.
pub open spec fn firmware_code_spec(e: FirmwareError) -> Seq<char> {
    match e {
        FirmwareError::NotRegularFile(_) => "firmware_source_invalid"@,
        FirmwareError::AdapterNotFound => "firmware_unsupported"@,
        FirmwareError::UpdateNotEnabled => "firmware_update_unavailable"@,
        FirmwareError::InvalidTransition(_) => "firmware_state"@,
        FirmwareError::Journal(_) => "firmware_journal"@,
        FirmwareError::Io(_) => "firmware_io"@,
    }
}

pub fn firmware_error_code(error: &FirmwareError) -> (r: &'static str)
    ensures
        r@ == firmware_code_spec(*error),
{
    match error {
        FirmwareError::NotRegularFile(_) => "firmware_source_invalid",
        FirmwareError::AdapterNotFound => "firmware_unsupported",
        FirmwareError::UpdateNotEnabled => "firmware_update_unavailable",
        FirmwareError::InvalidTransition(_) => "firmware_state",
        FirmwareError::Journal(_) => "firmware_journal",
        FirmwareError::Io(_) => "firmware_io",
    }
}

// ------------------------------------------------------------ profiles

/// A profile name that is a plain file name: not blank, no path separator,
/// not `.` or `..`.
pub open spec fn valid_profile_name(name: Seq<char>) -> bool {
    trim(name).len() > 0 && !name.contains('/') && !name.contains('\\') && name != "."@ && name
        != ".."@
}

fn has_char(s: &Vec<char>, c: char) -> (r: bool)
    ensures
        r == s@.contains(c),
{
    let mut i: usize = 0;
    while i < s.len()
        invariant
            i <= s@.len(),
            forall|j: int| 0 <= j < i ==> s@[j] != c,
        decreases s@.len() - i,
    {
        if s[i] == c {
            assert(s@[i as int] == c);
            return true;
        }
        i = i + 1;
    }
    false
}

pub fn validate_profile_filename(name: &str) -> (r: Result<(), ForgeHxError>)
    ensures
        r is Ok <==> valid_profile_name(name@),
        r matches Err(e) ==> e matches ForgeHxError::InvalidProfile(m) && m@ == "invalid profile name"@,
{
    let chars = str_chars(name);
    if trim_ws(&chars).len() == 0 || has_char(&chars, '/') || has_char(&chars, '\\') || chars_eq(
        &chars,
        &str_chars("."),
    ) || chars_eq(&chars, &str_chars("..")) {
        return Err(ForgeHxError::InvalidProfile(owned("invalid profile name")));
    }
    Ok(())
}

/// Profiles stored as JSON files under a directory.
#[derive(Debug, Clone)]
pub struct ProfileStore {
    pub root: String,
}

impl ProfileStore {
    pub fn new(root: String) -> (r: Self)
        ensures
            r.root@ == root@,
    {
        ProfileStore { root }
    }

    /// `<root>/<name>.json`, for a valid name.
    pub fn profile_path(&self, name: &str) -> (r: Result<String, ForgeHxError>)
        ensures
            r is Ok <==> valid_profile_name(name@),
            r matches Ok(p) ==> p@ == join_path(self.root@, name@ + ".json"@),
            r is Err ==> r->Err_0 is InvalidProfile,
    {
        match validate_profile_filename(name) {
            Ok(()) => {},
            Err(e) => return Err(e),
        }
        let file = concat(&str_chars(name), &str_chars(".json"));
        Ok(string_from(&join_path_chars(&str_chars(self.root.as_str()), &file)))
    }

    /// `<root>/.<name>.json.tmp`: where a save writes before it renames.
    pub fn temp_path(&self, name: &str) -> (r: Result<String, ForgeHxError>)
        ensures
            r is Ok <==> valid_profile_name(name@),
            r matches Ok(p) ==> p@ == join_path(self.root@, "."@ + name@ + ".json.tmp"@),
            r is Err ==> r->Err_0 is InvalidProfile,
    {
        match validate_profile_filename(name) {
            Ok(()) => {},
            Err(e) => return Err(e),
        }
        let file = concat(&concat(&str_chars("."), &str_chars(name)), &str_chars(".json.tmp"));
        Ok(string_from(&join_path_chars(&str_chars(self.root.as_str()), &file)))
    }
}

/// Where profiles live: under `$XDG_CONFIG_HOME`, else under `$HOME/.config`,
/// else in the working directory.
pub open spec fn profile_root(xdg: Option<Seq<char>>, home: Option<Seq<char>>) -> Seq<char> {
    match xdg {
        Some(x) => join_path(x, "forgehx/profiles"@),
        None => match home {
            Some(h) => join_path(h, ".config/forgehx/profiles"@),
            None => ".forgehx/profiles"@,
        },
    }
}

pub fn default_profile_root(xdg: Option<String>, home: Option<String>) -> (r: String)
    ensures
        r@ == profile_root(opt_view(xdg), opt_view(home)),
{
    match xdg {
        Some(x) => string_from(&join_path_chars(&str_chars(x.as_str()), &str_chars("forgehx/profiles"))),
        None => match home {
            Some(h) => string_from(
                &join_path_chars(&str_chars(h.as_str()), &str_chars(".config/forgehx/profiles")),
            ),
            None => owned(".forgehx/profiles"),
        },
    }
}

/// Where the daemon listens: `forgehx/forgehx.sock` under the runtime
/// directory, else `/tmp/forgehx-<user>/forgehx.sock`.
pub open spec fn daemon_socket(runtime_dir: Option<Seq<char>>, user: Option<Seq<char>>) -> Seq<char> {
    match runtime_dir {
        Some(d) => join_path(d, "forgehx/forgehx.sock"@),
        None => "/tmp/forgehx-"@ + match user {
            Some(u) => u,
            None => "user"@,
        } + "/forgehx.sock"@,
    }
}

pub fn daemon_socket_path(runtime_dir: Option<String>, user: Option<String>) -> (r: String)
    ensures
        r@ == daemon_socket(opt_view(runtime_dir), opt_view(user)),
{
    match runtime_dir {
        Some(d) => string_from(&join_path_chars(&str_chars(d.as_str()), &str_chars("forgehx/forgehx.sock"))),
        None => {
            let u = match user {
                Some(u) => str_chars(u.as_str()),
                None => str_chars("user"),
            };
            string_from(&concat(&concat(&str_chars("/tmp/forgehx-"), &u), &str_chars("/forgehx.sock")))
        },
    }
}

// ------------------------------------------------------------ applying profiles

/// `t` is the text of one of `s`.
pub open spec fn has_text(s: Seq<String>, t: Seq<char>) -> bool {
    exists|k: int| 0 <= k < s.len() && #[trigger] s[k]@ == t
}

/// The sections a profile application skipped, as it reports them: in
/// ascending order, each once.
pub fn settled_skips(skipped: &Vec<String>) -> (r: Vec<String>)
    ensures
        forall|i: int, j: int| 0 <= i < j < r@.len() ==> text_lt(r@[i]@, r@[j]@),
        forall|t: Seq<char>| has_text(r@, t) <==> has_text(skipped@, t),
{
    let mut out: Vec<String> = Vec::new();
    let mut i: usize = 0;
    while i < skipped.len()
        invariant
            i <= skipped@.len(),
            forall|a: int, b: int| 0 <= a < b < out@.len() ==> text_lt(out@[a]@, out@[b]@),
            forall|t: Seq<char>| has_text(out@, t) <==> has_text(skipped@.take(i as int), t),
        decreases skipped@.len() - i,
    {
        let s = str_chars(skipped[i].as_str());
        let mut p: usize = 0;
        while p < out.len() && text_less(&str_chars(out[p].as_str()), &s)
            invariant
                p <= out@.len(),
                s@ == skipped@[i as int]@,
                forall|k: int| 0 <= k < p ==> text_lt(#[trigger] out@[k]@, s@),
            decreases out@.len() - p,
        {
            p = p + 1;
        }
        let ghost before = out@;
        let ghost taken = skipped@.take(i as int + 1);
        assert(taken == skipped@.take(i as int).push(skipped@[i as int]));
        let present = p < out.len() && chars_eq(&str_chars(out[p].as_str()), &s);
        if !present {
            proof {
                if p < before.len() {
                    lemma_text_lt_total(before[p as int]@, s@);
                    assert forall|k: int| p < k < before.len() implies text_lt(s@, #[trigger] before[k]@) by {
                        lemma_text_lt_transitive(s@, before[p as int]@, before[k]@);
                    }
                }
            }
            out.insert(p, copy_string(&skipped[i]));
            assert forall|a: int, b: int| 0 <= a < b < out@.len() implies text_lt(out@[a]@, out@[b]@) by {
                if a < p && b == p {
                } else if a < p && b > p {
                    assert(out@[b] == before[b - 1]);
                    lemma_text_lt_transitive(out@[a]@, s@, out@[b]@);
                } else if a == p {
                    assert(out@[b] == before[b - 1]);
                } else if a > p {
                    assert(out@[a] == before[a - 1] && out@[b] == before[b - 1]);
                }
            }
        }
        assert forall|t: Seq<char>| has_text(out@, t) <==> has_text(taken, t) by {
            if has_text(out@, t) {
                let k = choose|k: int| 0 <= k < out@.len() && #[trigger] out@[k]@ == t;
                if t != s@ {
                    let kb = if !present && k > p { k - 1 } else { k };
                    assert(before[kb]@ == t);
                    assert(has_text(before, t));
                    let m = choose|m: int| 0 <= m < i && #[trigger] skipped@.take(i as int)[m]@ == t;
                    assert(taken[m]@ == t);
                } else {
                    assert(taken[i as int]@ == t);
                }
            }
            if has_text(taken, t) {
                let m = choose|m: int| 0 <= m < taken.len() && #[trigger] taken[m]@ == t;
                if m < i {
                    assert(skipped@.take(i as int)[m]@ == t);
                    assert(has_text(before, t));
                    let k = choose|k: int| 0 <= k < before.len() && #[trigger] before[k]@ == t;
                    if present {
                        assert(out@[k]@ == t);
                    } else if k < p {
                        assert(out@[k]@ == t);
                    } else {
                        assert(out@[k + 1]@ == t);
                    }
                } else {
                    if present {
                        assert(out@[p as int]@ == t);
                    } else {
                        assert(out@[p as int]@ == t);
                    }
                }
            }
        }
        i = i + 1;
    }
    assert(skipped@.take(skipped@.len() as int) == skipped@);
    out
}

/// One step of applying a profile to a device, in the order they are taken.
#[derive(Debug, Clone, Copy, PartialEq, Eq, Structural)]
pub enum ProfileStep {
    /// Set the profile's lighting.
    Lighting,
    /// Set the mouse's DPI stages.
    Dpi,
    PollingRate(u16),
    MouseProfile(u8),
    /// Give button `button` the action of the mouse binding at `binding`.
    Button { button: u32, binding: usize },
    LiftOffDistance(u8),
    /// Set the output volume and mute on this sink.
    Output(u32),
    /// Set the microphone volume and mute on this source.
    Input(u32),
    /// Save the profile's EQ routed to this sink, and apply it.
    Eq(u32),
    /// The device has no live sink for the output settings.
    NoOutput,
    /// The device has no live source for the microphone settings.
    NoInput,
    /// The device has no live sink to route the EQ to.
    NoEqTarget,
}

/// The button steps of a mouse's bindings: one for each binding whose key is
/// a button number.
pub open spec fn binding_steps(bindings: Seq<KeyBinding>) -> Seq<ProfileStep>
    decreases bindings.len(),
{
    if bindings.len() == 0 {
        Seq::empty()
    } else {
        binding_steps(bindings.drop_last()) + match parse_bounded(bindings.last().key@, 10, 0xffff_ffff) {
            Some(n) => seq![ProfileStep::Button { button: n as u32, binding: (bindings.len() - 1) as usize }],
            None => Seq::empty(),
        }
    }
}

/// The mouse steps: DPI when there are stages, then report rate, active
/// profile, button bindings and lift-off distance where the profile sets them.
pub open spec fn mouse_steps(m: MouseConfig) -> Seq<ProfileStep> {
    (if m.dpi.stages@.len() > 0 {
        seq![ProfileStep::Dpi]
    } else {
        Seq::empty()
    }) + match m.report_rate_hz {
        Some(hz) => seq![ProfileStep::PollingRate(hz)],
        None => Seq::empty(),
    } + match m.active_profile {
        Some(p) => seq![ProfileStep::MouseProfile(p)],
        None => Seq::empty(),
    } + binding_steps(m.button_assignments@) + match m.lift_off_distance_mm {
        Some(mm) => seq![ProfileStep::LiftOffDistance(mm)],
        None => Seq::empty(),
    }
}

/// A live node of the given kind that belongs to the device.
pub open spec fn is_device_node(device: DeviceInfo, kind: Seq<char>) -> spec_fn(AudioEndpoint) -> bool {
    |n: AudioEndpoint|
        n.kind@ == kind && exists|j: int|
            0 <= j < device.interfaces@.len() && #[trigger] device.interfaces@[j].audio_node_id == Some(
                n.id,
            )
}

/// The first live node of the given kind that belongs to the device.
pub open spec fn device_node(live: Seq<AudioEndpoint>, device: DeviceInfo, kind: Seq<char>) -> Option<u32> {
    match first_index(live, is_device_node(device, kind)) {
        Some(i) => Some(live[i].id),
        None => None,
    }
}

pub open spec fn node_step(node: Option<u32>, found: spec_fn(u32) -> ProfileStep, missing: ProfileStep) -> Seq<
    ProfileStep,
> {
    match node {
        Some(n) => seq![found(n)],
        None => seq![missing],
    }
}

pub open spec fn output_step() -> spec_fn(u32) -> ProfileStep {
    |n: u32| ProfileStep::Output(n)
}

pub open spec fn input_step() -> spec_fn(u32) -> ProfileStep {
    |n: u32| ProfileStep::Input(n)
}

pub open spec fn eq_step() -> spec_fn(u32) -> ProfileStep {
    |n: u32| ProfileStep::Eq(n)
}

/// The steps of applying a profile with the given sections to a device:
/// lighting, the mouse settings, then output, microphone and EQ on the
/// device's own live nodes.
pub open spec fn profile_steps(
    has_lighting: bool,
    mouse: Option<MouseConfig>,
    has_output: bool,
    has_input: bool,
    has_eq: bool,
    device: DeviceInfo,
    live: Seq<AudioEndpoint>,
) -> Seq<ProfileStep> {
    (if has_lighting {
        seq![ProfileStep::Lighting]
    } else {
        Seq::empty()
    }) + match mouse {
        Some(m) => mouse_steps(m),
        None => Seq::empty(),
    } + (if has_output {
        node_step(device_node(live, device, "sink"@), output_step(), ProfileStep::NoOutput)
    } else {
        Seq::empty()
    }) + (if has_input {
        node_step(device_node(live, device, "source"@), input_step(), ProfileStep::NoInput)
    } else {
        Seq::empty()
    }) + (if has_eq {
        node_step(device_node(live, device, "sink"@), eq_step(), ProfileStep::NoEqTarget)
    } else {
        Seq::empty()
    })
}

fn belongs_to(device: &DeviceInfo, id: u32) -> (r: bool)
    ensures
        r == exists|j: int| 0 <= j < device.interfaces@.len() && #[trigger] device.interfaces@[j].audio_node_id == Some(id),
{
    let mut j: usize = 0;
    while j < device.interfaces.len()
        invariant
            j <= device.interfaces@.len(),
            forall|k: int| 0 <= k < j ==> #[trigger] device.interfaces@[k].audio_node_id != Some(id),
        decreases device.interfaces@.len() - j,
    {
        if device.interfaces[j].audio_node_id == Some(id) {
            return true;
        }
        j = j + 1;
    }
    false
}

/// The id of the device's first live node of the given kind.
pub fn device_node_id(live: &[AudioEndpoint], device: &DeviceInfo, kind: &str) -> (r: Option<u32>)
    ensures
        r == device_node(live@, *device, kind@),
{
    let wanted = str_chars(kind);
    let ghost f = is_device_node(*device, kind@);
    let mut i: usize = 0;
    while i < live.len()
        invariant
            i <= live@.len(),
            wanted@ == kind@,
            f == is_device_node(*device, kind@),
            forall|k: int| 0 <= k < i ==> !f(#[trigger] live@[k]),
        decreases live@.len() - i,
    {
        if chars_eq(&str_chars(live[i].kind.as_str()), &wanted) && belongs_to(device, live[i].id) {
            proof {
                lemma_first_index_is(live@, f, i as int);
            }
            return Some(live[i].id);
        }
        i = i + 1;
    }
    proof {
        lemma_first_index_is(live@, f, i as int);
    }
    None
}

fn mouse_plan(m: &MouseConfig) -> (r: Vec<ProfileStep>)
    ensures
        r@ == mouse_steps(*m),
{
    let mut out: Vec<ProfileStep> = Vec::new();
    if m.dpi.stages.len() > 0 {
        out.push(ProfileStep::Dpi);
    }
    if let Some(hz) = m.report_rate_hz {
        out.push(ProfileStep::PollingRate(hz));
    }
    if let Some(p) = m.active_profile {
        out.push(ProfileStep::MouseProfile(p));
    }
    let ghost head = out@;
    let bindings = &m.button_assignments;
    let mut k: usize = 0;
    while k < bindings.len()
        invariant
            k <= bindings@.len(),
            out@ == head + binding_steps(bindings@.take(k as int)),
        decreases bindings@.len() - k,
    {
        let ghost t = bindings@.take(k as int + 1);
        assert(t.drop_last() == bindings@.take(k as int));
        assert(t.last() == bindings@[k as int]);
        match parse_num(&str_chars(bindings[k].key.as_str()), 10, 0xffff_ffff) {
            Some(n) => {
                out.push(ProfileStep::Button { button: n as u32, binding: k });
            },
            None => {},
        }
        assert(out@ == head + binding_steps(t));
        k = k + 1;
    }
    assert(bindings@.take(bindings@.len() as int) == bindings@);
    if let Some(mm) = m.lift_off_distance_mm {
        out.push(ProfileStep::LiftOffDistance(mm));
    }
    out
}

fn push_node_step(out: &mut Vec<ProfileStep>, node: Option<u32>, found: ProfileStep, missing: ProfileStep)
    ensures
        final(out)@ == old(out)@ + match node {
            Some(_) => seq![found],
            None => seq![missing],
        },
{
    match node {
        Some(_) => out.push(found),
        None => out.push(missing),
    }
}

/// The steps of applying a profile to a device: which sections it has,
/// its mouse settings, and the live audio nodes.
pub fn profile_plan(
    has_lighting: bool,
    mouse: &Option<MouseConfig>,
    has_output: bool,
    has_input: bool,
    has_eq: bool,
    device: &DeviceInfo,
    live: &[AudioEndpoint],
) -> (r: Vec<ProfileStep>)
    ensures
        r@ == profile_steps(has_lighting, *mouse, has_output, has_input, has_eq, *device, live@),
{
    proof {
        reveal_strlit("sink");
        reveal_strlit("source");
    }
    let mut out: Vec<ProfileStep> = Vec::new();
    if has_lighting {
        out.push(ProfileStep::Lighting);
    }
    if let Some(m) = mouse {
        let steps = mouse_plan(m);
        out.extend_from_slice(&steps);
    }
    if has_output {
        let node = device_node_id(live, device, "sink");
        let n = match node { Some(n) => n, None => 0 };
        push_node_step(&mut out, node, ProfileStep::Output(n), ProfileStep::NoOutput);
    }
    if has_input {
        let node = device_node_id(live, device, "source");
        let n = match node { Some(n) => n, None => 0 };
        push_node_step(&mut out, node, ProfileStep::Input(n), ProfileStep::NoInput);
    }
    if has_eq {
        let node = device_node_id(live, device, "sink");
        let n = match node { Some(n) => n, None => 0 };
        push_node_step(&mut out, node, ProfileStep::Eq(n), ProfileStep::NoEqTarget);
    }
    out
}

/// The section a step belongs to, as a skipped section is reported.
pub open spec fn step_label_text(step: ProfileStep) -> Seq<char> {
    match step {
        ProfileStep::Lighting => "lighting"@,
        ProfileStep::Dpi => "dpi"@,
        ProfileStep::PollingRate(_) => "polling_rate"@,
        ProfileStep::MouseProfile(_) => "mouse_profile"@,
        ProfileStep::Button { button, .. } => "button_"@ + dec_str(button as nat),
        ProfileStep::LiftOffDistance(_) => "lift_off_distance"@,
        ProfileStep::Output(_) | ProfileStep::NoOutput => "audio"@,
        ProfileStep::Input(_) | ProfileStep::NoInput => "microphone"@,
        ProfileStep::Eq(_) | ProfileStep::NoEqTarget => "eq"@,
    }
}

pub fn step_label(step: ProfileStep) -> (r: String)
    ensures
        r@ == step_label_text(step),
{
    match step {
        ProfileStep::Lighting => owned("lighting"),
        ProfileStep::Dpi => owned("dpi"),
        ProfileStep::PollingRate(_) => owned("polling_rate"),
        ProfileStep::MouseProfile(_) => owned("mouse_profile"),
        ProfileStep::Button { button, .. } => string_from(
            &concat(&str_chars("button_"), &fmt_dec(button as u64)),
        ),
        ProfileStep::LiftOffDistance(_) => owned("lift_off_distance"),
        ProfileStep::Output(_) | ProfileStep::NoOutput => owned("audio"),
        ProfileStep::Input(_) | ProfileStep::NoInput => owned("microphone"),
        ProfileStep::Eq(_) | ProfileStep::NoEqTarget => owned("eq"),
    }
}

// ------------------------------------------------------------ lookups

/// The device with the given id, the first if several.
pub fn find_device(devices: &[DeviceInfo], id: &DeviceId) -> (r: Result<usize, ForgeHxError>)
    ensures
        r matches Ok(i) ==> i < devices@.len() && devices@[i as int].id.0@ == id.0@ && forall|j: int|
            0 <= j < i ==> #[trigger] devices@[j].id.0@ != id.0@,
        r is Err <==> forall|j: int| 0 <= j < devices@.len() ==> #[trigger] devices@[j].id.0@ != id.0@,
        r matches Err(e) ==> e matches ForgeHxError::DeviceNotFound(d) && d.0@ == id.0@,
{
    let wanted = str_chars(id.0.as_str());
    let mut i: usize = 0;
    while i < devices.len()
        invariant
            i <= devices@.len(),
            wanted@ == id.0@,
            forall|j: int| 0 <= j < i ==> #[trigger] devices@[j].id.0@ != id.0@,
        decreases devices@.len() - i,
    {
        if chars_eq(&str_chars(devices[i].id.0.as_str()), &wanted) {
            return Ok(i);
        }
        i = i + 1;
    }
    Err(ForgeHxError::DeviceNotFound(DeviceId(copy_string(&id.0))))
}

/// The owner of a capability of a device, or `Unsupported` when it has none.
pub fn owner_for(device: &DeviceInfo, capability: Capability) -> (r: Result<CapabilityOwner, ForgeHxError>)
    ensures
        match crate::model::owner_of(device.capability_owners@, capability) {
            Some(o) => r matches Ok(x) && x@ == o@,
            None => r == Err::<CapabilityOwner, ForgeHxError>(ForgeHxError::Unsupported(capability)),
        },
{
    match device.selected_owner(capability) {
        Some(o) => Ok(o.duplicate()),
        None => Err(ForgeHxError::Unsupported(capability)),
    }
}

/// The OpenRGB controller index an owner maps to: its backend device id in
/// decimal.
pub fn openrgb_controller_index(owner: &CapabilityOwner) -> (r: Option<u32>)
    ensures
        match opt_view(owner.backend_device_id) {
            Some(id) => match parse_bounded(id, 10, 0xffff_ffff) {
                Some(v) => r == Some(v as u32),
                None => r is None,
            },
            None => r is None,
        },
{
    match &owner.backend_device_id {
        Some(id) => match parse_num(&str_chars(id.as_str()), 10, 0xffff_ffff) {
            Some(v) => Some(v as u32),
            None => None,
        },
        None => None,
    }
}

/// Devices without any writable owner.
pub open spec fn write_protected(d: DeviceInfo) -> bool {
    forall|k: int| 0 <= k < d.capability_owners@.len() ==> !(#[trigger] d.capability_owners@[k]).writable
}

pub open spec fn count_protected(ds: Seq<DeviceInfo>) -> nat
    decreases ds.len(),
{
    if ds.len() == 0 {
        0
    } else {
        count_protected(ds.drop_last()) + if write_protected(ds.last()) {
            1nat
        } else {
            0nat
        }
    }
}

fn is_write_protected(d: &DeviceInfo) -> (r: bool)
    ensures
        r == write_protected(*d),
{
    let mut k: usize = 0;
    while k < d.capability_owners.len()
        invariant
            k <= d.capability_owners@.len(),
            forall|j: int| 0 <= j < k ==> !(#[trigger] d.capability_owners@[j]).writable,
        decreases d.capability_owners@.len() - k,
    {
        if d.capability_owners[k].writable {
            return false;
        }
        k = k + 1;
    }
    true
}

/// How many devices no backend may write to, as the status reply counts them.
pub fn write_protected_count(devices: &[DeviceInfo]) -> (r: usize)
    ensures
        r == count_protected(devices@),
{
    let mut n: usize = 0;
    let mut i: usize = 0;
    while i < devices.len()
        invariant
            i <= devices@.len(),
            n == count_protected(devices@.take(i as int)),
            n <= i,
        decreases devices@.len() - i,
    {
        assert(devices@.take(i as int + 1).drop_last() == devices@.take(i as int));
        if is_write_protected(&devices[i]) {
            n = n + 1;
        }
        i = i + 1;
    }
    assert(devices@.take(devices@.len() as int) == devices@);
    n
}

} // verus!
