//! Microphone firmware: the adapter registry, package inventory, staging
//! digests and the update transaction state machine.
use crate::model::{
    DeviceClass, DeviceId, DeviceInfo, DeviceInterface, FirmwarePackageInfo, FirmwareSupportLevel,
    FirmwareTransactionState, FirmwareTransactionStatus, FirmwareValidation,
};
use crate::text::{
    concat, contains, contains_sub, copy_string, dec_str, digit_char, fmt_dec, fmt_hex, fmt_hex_bytes, hex_bytes,
    hex_str, lowercase, owned, str_chars, string_from, to_lowercase,
};
use sha2::{Digest, Sha256};
use vstd::prelude::*;

verus! {

/// Errors of firmware management.
#[derive(Debug, Clone)]
pub enum FirmwareError {
    NotRegularFile(String),
    Io(String),
    AdapterNotFound,
    UpdateNotEnabled,
    InvalidTransition(String),
    Journal(String),
}

/// A USB vendor/product pair.
#[derive(Debug, Clone, Copy, PartialEq, Eq, Structural)]
pub struct UsbIdentity {
    pub vendor_id: u16,
    pub product_id: u16,
}

/// The firmware adapter that the registry assigns to a microphone.
#[derive(Debug, Clone)]
pub struct FirmwareAdapterDescriptor {
    pub id: String,
    pub model: String,
    pub support_level: FirmwareSupportLevel,
    pub normal_ids: Vec<UsbIdentity>,
    pub update_ids: Vec<UsbIdentity>,
    pub exact_hardware_match: bool,
}

/// What the registry decides, as plain values.
pub struct AdapterSpec {
    pub id: Seq<char>,
    pub model: Seq<char>,
    pub support_level: FirmwareSupportLevel,
    pub normal_ids: Seq<UsbIdentity>,
    pub exact_hardware_match: bool,
}

impl FirmwareAdapterDescriptor {
    pub open spec fn matches_spec(&self, a: AdapterSpec) -> bool {
        &&& self.id@ == a.id
        &&& self.model@ == a.model
        &&& self.support_level == a.support_level
        &&& self.normal_ids@ == a.normal_ids
        &&& self.update_ids@.len() == 0
        &&& self.exact_hardware_match == a.exact_hardware_match
    }
}

pub open spec fn uid(vendor_id: u16, product_id: u16) -> UsbIdentity {
    UsbIdentity { vendor_id, product_id }
}

pub open spec fn solocast_2_ids() -> Seq<UsbIdentity> {
    seq![uid(0x03f0, 0x0fbf)]
}

pub open spec fn quadcast_s_ids() -> Seq<UsbIdentity> {
    seq![uid(0x0951, 0x171f), uid(0x03f0, 0x0f8b)]
}

pub open spec fn quadcast_2s_ids() -> Seq<UsbIdentity> {
    seq![uid(0x03f0, 0x0d84), uid(0x03f0, 0x02b5)]
}

/// The identity an interface reports, falling back to the device's own
/// non-zero ids.
pub open spec fn interface_identity(device: DeviceInfo, iface: DeviceInterface) -> Option<UsbIdentity> {
    let vid = match iface.vendor_id {
        Some(v) => Some(v),
        None => if device.vendor_id != 0 {
            Some(device.vendor_id)
        } else {
            None
        },
    };
    let pid = match iface.product_id {
        Some(p) => Some(p),
        None => if device.product_id != 0 {
            Some(device.product_id)
        } else {
            None
        },
    };
    match (vid, pid) {
        (Some(v), Some(p)) => Some(uid(v, p)),
        _ => None,
    }
}

/// The device (or one of its interfaces) carries one of the `known` ids.
pub open spec fn exact_match(device: DeviceInfo, known: Seq<UsbIdentity>) -> bool {
    ||| (device.vendor_id != 0 && device.product_id != 0 && known.contains(
        uid(device.vendor_id, device.product_id),
    ))
    ||| exists|i: int|
        0 <= i < device.interfaces@.len() && match interface_identity(
            device,
            #[trigger] device.interfaces@[i],
        ) {
            Some(id) => known.contains(id),
            None => false,
        }
}

/// The model a HyperX microphone name alone points at.
pub open spec fn model_by_name(name: Seq<char>) -> Option<Seq<char>> {
    let lower = lowercase(name);
    if contains(lower, "flipcast"@) {
        Some("HyperX FlipCast"@)
    } else if contains(lower, "solocast 2"@) {
        Some("HyperX SoloCast 2"@)
    } else if contains(lower, "solocast"@) {
        Some("HyperX SoloCast"@)
    } else if contains(lower, "duocast"@) {
        Some("HyperX DuoCast"@)
    } else if contains(lower, "quadcast 2 s"@) || contains(lower, "quadcast 2s"@) {
        Some("HyperX QuadCast 2 S"@)
    } else if contains(lower, "quadcast 2"@) {
        Some("HyperX QuadCast 2"@)
    } else if contains(lower, "quadcast s"@) {
        Some("HyperX QuadCast S"@)
    } else {
        None
    }
}

pub open spec fn exact_adapter(id: Seq<char>, model: Seq<char>, ids: Seq<UsbIdentity>) -> AdapterSpec {
    AdapterSpec {
        id,
        model,
        support_level: FirmwareSupportLevel::InventoryOnly,
        normal_ids: ids,
        exact_hardware_match: true,
    }
}

/// The adapter of a device: only HyperX microphones get one; exact USB ids
/// give an exact adapter, a recognised name an inventory-only one.
pub open spec fn adapter_for(device: DeviceInfo) -> Option<AdapterSpec> {
    if device.device_class != DeviceClass::Microphone || !(device.vendor_family is HyperX) {
        None
    } else if exact_match(device, solocast_2_ids()) {
        Some(exact_adapter("hyperx-solocast-2-firmware"@, "HyperX SoloCast 2"@, solocast_2_ids()))
    } else if exact_match(device, quadcast_s_ids()) {
        Some(exact_adapter("hyperx-quadcast-s-firmware"@, "HyperX QuadCast S"@, quadcast_s_ids()))
    } else if exact_match(device, quadcast_2s_ids()) {
        Some(
            exact_adapter("hyperx-quadcast-2s-firmware"@, "HyperX QuadCast 2 S"@, quadcast_2s_ids()),
        )
    } else {
        match model_by_name(device.name@) {
            Some(model) => Some(
                AdapterSpec {
                    id: "hyperx-mic-inventory-only"@,
                    model,
                    support_level: FirmwareSupportLevel::InventoryOnly,
                    normal_ids: Seq::empty(),
                    exact_hardware_match: false,
                },
            ),
            None => None,
        }
    }
}

fn ids_contain(known: &Vec<UsbIdentity>, id: UsbIdentity) -> (r: bool)
    ensures
        r == known@.contains(id),
{
    let mut i: usize = 0;
    while i < known.len()
        invariant
            i <= known@.len(),
            forall|j: int| 0 <= j < i ==> known@[j] != id,
        decreases known@.len() - i,
    {
        if known[i] == id {
            return true;
        }
        i = i + 1;
    }
    false
}

fn interface_id(device: &DeviceInfo, iface: &DeviceInterface) -> (r: Option<UsbIdentity>)
    ensures
        r == interface_identity(*device, *iface),
{
    let vid = match iface.vendor_id {
        Some(v) => Some(v),
        None => if device.vendor_id != 0 {
            Some(device.vendor_id)
        } else {
            None
        },
    };
    let pid = match iface.product_id {
        Some(p) => Some(p),
        None => if device.product_id != 0 {
            Some(device.product_id)
        } else {
            None
        },
    };
    match (vid, pid) {
        (Some(v), Some(p)) => Some(UsbIdentity { vendor_id: v, product_id: p }),
        _ => None,
    }
}

fn is_exact(device: &DeviceInfo, known: &Vec<UsbIdentity>) -> (r: bool)
    ensures
        r == exact_match(*device, known@),
{
    if device.vendor_id != 0 && device.product_id != 0 && ids_contain(
        known,
        UsbIdentity { vendor_id: device.vendor_id, product_id: device.product_id },
    ) {
        return true;
    }
    let mut i: usize = 0;
    while i < device.interfaces.len()
        invariant
            i <= device.interfaces@.len(),
            forall|j: int|
                0 <= j < i ==> match interface_identity(*device, #[trigger] device.interfaces@[j]) {
                    Some(id) => !known@.contains(id),
                    None => true,
                },
        decreases device.interfaces@.len() - i,
    {
        match interface_id(device, &device.interfaces[i]) {
            Some(id) => {
                if ids_contain(known, id) {
                    return true;
                }
            },
            None => {},
        }
        i = i + 1;
    }
    false
}

fn id_list(pairs: &[(u16, u16)]) -> (r: Vec<UsbIdentity>)
    ensures
        r@.len() == pairs@.len(),
        forall|i: int| 0 <= i < pairs@.len() ==> #[trigger] r@[i] == uid(pairs@[i].0, pairs@[i].1),
{
    let mut r: Vec<UsbIdentity> = Vec::new();
    let mut i: usize = 0;
    while i < pairs.len()
        invariant
            i <= pairs@.len(),
            r@.len() == i,
            forall|k: int| 0 <= k < i ==> #[trigger] r@[k] == uid(pairs@[k].0, pairs@[k].1),
        decreases pairs@.len() - i,
    {
        r.push(UsbIdentity { vendor_id: pairs[i].0, product_id: pairs[i].1 });
        i = i + 1;
    }
    r
}

fn solocast_2() -> (r: Vec<UsbIdentity>)
    ensures
        r@ == solocast_2_ids(),
{
    let r = id_list(&[(0x03f0, 0x0fbf)]);
    assert(r@ =~= solocast_2_ids());
    r
}

fn quadcast_s() -> (r: Vec<UsbIdentity>)
    ensures
        r@ == quadcast_s_ids(),
{
    let r = id_list(&[(0x0951, 0x171f), (0x03f0, 0x0f8b)]);
    assert(r@ =~= quadcast_s_ids());
    r
}

fn quadcast_2s() -> (r: Vec<UsbIdentity>)
    ensures
        r@ == quadcast_2s_ids(),
{
    let r = id_list(&[(0x03f0, 0x0d84), (0x03f0, 0x02b5)]);
    assert(r@ =~= quadcast_2s_ids());
    r
}

fn has_word(lower: &Vec<char>, word: &str) -> (r: bool)
    ensures
        r == contains(lower@, word@),
{
    contains_sub(lower, &str_chars(word))
}

fn name_model(name: &String) -> (r: Option<String>)
    ensures
        match model_by_name(name@) {
            Some(m) => r matches Some(s) && s@ == m,
            None => r is None,
        },
{
    let lower = to_lowercase(&str_chars(name.as_str()));
    if has_word(&lower, "flipcast") {
        Some(owned("HyperX FlipCast"))
    } else if has_word(&lower, "solocast 2") {
        Some(owned("HyperX SoloCast 2"))
    } else if has_word(&lower, "solocast") {
        Some(owned("HyperX SoloCast"))
    } else if has_word(&lower, "duocast") {
        Some(owned("HyperX DuoCast"))
    } else if has_word(&lower, "quadcast 2 s") || has_word(&lower, "quadcast 2s") {
        Some(owned("HyperX QuadCast 2 S"))
    } else if has_word(&lower, "quadcast 2") {
        Some(owned("HyperX QuadCast 2"))
    } else if has_word(&lower, "quadcast s") {
        Some(owned("HyperX QuadCast S"))
    } else {
        None
    }
}

/// Maps microphones to their firmware adapters.
pub struct FirmwareRegistry;

impl FirmwareRegistry {
    /// The adapter for `device`, if it is a HyperX microphone the registry knows.
    pub fn for_device(device: &DeviceInfo) -> (r: Option<FirmwareAdapterDescriptor>)
        ensures
            match adapter_for(*device) {
                Some(a) => r matches Some(d) && d.matches_spec(a),
                None => r is None,
            },
    {
        if device.device_class != DeviceClass::Microphone || !device.is_hyperx() {
            return None;
        }
        let ids = solocast_2();
        if is_exact(device, &ids) {
            return Some(
                FirmwareAdapterDescriptor {
                    id: owned("hyperx-solocast-2-firmware"),
                    model: owned("HyperX SoloCast 2"),
                    support_level: FirmwareSupportLevel::InventoryOnly,
                    normal_ids: ids,
                    update_ids: Vec::new(),
                    exact_hardware_match: true,
                },
            );
        }
        let ids = quadcast_s();
        if is_exact(device, &ids) {
            return Some(
                FirmwareAdapterDescriptor {
                    id: owned("hyperx-quadcast-s-firmware"),
                    model: owned("HyperX QuadCast S"),
                    support_level: FirmwareSupportLevel::InventoryOnly,
                    normal_ids: ids,
                    update_ids: Vec::new(),
                    exact_hardware_match: true,
                },
            );
        }
        let ids = quadcast_2s();
        if is_exact(device, &ids) {
            return Some(
                FirmwareAdapterDescriptor {
                    id: owned("hyperx-quadcast-2s-firmware"),
                    model: owned("HyperX QuadCast 2 S"),
                    support_level: FirmwareSupportLevel::InventoryOnly,
                    normal_ids: ids,
                    update_ids: Vec::new(),
                    exact_hardware_match: true,
                },
            );
        }
        match name_model(&device.name) {
            Some(model) => Some(
                FirmwareAdapterDescriptor {
                    id: owned("hyperx-mic-inventory-only"),
                    model,
                    support_level: FirmwareSupportLevel::InventoryOnly,
                    normal_ids: Vec::new(),
                    update_ids: Vec::new(),
                    exact_hardware_match: false,
                },
            ),
            None => None,
        }
    }
}

/// The registry never grants a firmware writer: every adapter it hands out
/// is inventory-only, and only an exact USB id makes an exact adapter.
pub proof fn law_registry_is_inventory_only(device: DeviceInfo)
    ensures
        adapter_for(device) matches Some(a) ==> !a.support_level.spec_can_update()
            && !a.support_level.spec_can_recover(),
        adapter_for(device) matches Some(a) && a.exact_hardware_match ==> (exact_match(
            device,
            solocast_2_ids(),
        ) || exact_match(device, quadcast_s_ids()) || exact_match(device, quadcast_2s_ids())),
        !(device.vendor_family is HyperX) ==> adapter_for(device) is None,
{
}

// ------------------------------------------------------------ packages

/// A firmware image copied into the staging area.
#[derive(Debug, Clone)]
pub struct StagedFirmware {
    pub staged_id: String,
    pub device_id: DeviceId,
    pub original_filename: String,
    pub path: String,
    pub sha256: String,
    pub size_bytes: u64,
}

/// What validating a staged package reports: until a model-specific container
/// parser is verified, the package is opaque and its version unknown.
pub fn validate_package(adapter: &FirmwareAdapterDescriptor, staged: &StagedFirmware) -> (r:
    FirmwarePackageInfo)
    ensures
        r.staged_id@ == staged.staged_id@,
        r.original_filename@ == staged.original_filename@,
        r.sha256@ == staged.sha256@,
        r.size_bytes == staged.size_bytes,
        r.parsed_format@ == "opaque"@,
        adapter.exact_hardware_match ==> (r.claimed_model matches Some(m) && m@ == adapter.model@),
        !adapter.exact_hardware_match ==> r.claimed_model is None,
        r.claimed_hardware_revision is None,
        r.claimed_firmware_version is None,
        r.validation == FirmwareValidation::VersionUnknown,
        !r.vendor_signature_verified,
{
    FirmwarePackageInfo {
        staged_id: copy_string(&staged.staged_id),
        original_filename: copy_string(&staged.original_filename),
        sha256: copy_string(&staged.sha256),
        size_bytes: staged.size_bytes,
        parsed_format: owned("opaque"),
        claimed_model: if adapter.exact_hardware_match {
            Some(copy_string(&adapter.model))
        } else {
            None
        },
        claimed_hardware_revision: None,
        claimed_firmware_version: None,
        validation: FirmwareValidation::VersionUnknown,
        vendor_signature_verified: false,
    }
}

/// The SHA-256 digest of a byte sequence.
pub uninterp spec fn sha256_of(data: Seq<u8>) -> Seq<u8>;

/// Calls `sha2::Sha256::digest`. Claimed: the result is the digest of
/// exactly `data`, 32 bytes long (the output size of `Sha256`).
#[verifier::external_body]
fn sha256_digest(data: &[u8]) -> (r: Vec<u8>)
    ensures
        r@ == sha256_of(data@),
        r@.len() == 32,
{
    Sha256::digest(data).to_vec()
}

/// Lower-case hexadecimal SHA-256 of a firmware image, as staging records it.
pub fn sha256_hex(data: &[u8]) -> (r: String)
    ensures
        r@ == hex_bytes(sha256_of(data@)),
        r@.len() == 64,
{
    let digest = sha256_digest(data);
    proof {
        lemma_hex_bytes_len(digest@);
    }
    string_from(&fmt_hex_bytes(&digest))
}

pub proof fn lemma_hex_bytes_len(s: Seq<u8>)
    ensures
        hex_bytes(s).len() == 2 * s.len(),
    decreases s.len(),
{
    if s.len() > 0 {
        lemma_hex_bytes_len(s.drop_last());
        lemma_hex_str_byte(s.last());
    }
}

proof fn lemma_hex_str_byte(b: u8)
    ensures
        hex_str(b as nat, 2).len() == 2,
{
    assert(hex_str(b as nat, 2) == hex_str(b as nat / 16, 1).push(digit_char(b as nat % 16)));
    assert(b as nat / 16 < 16);
}

/// Stages firmware images under a root directory.
pub struct FirmwareStager {
    pub root: String,
}

impl FirmwareStager {
    pub fn new(root: String) -> (r: Self)
        ensures
            r.root@ == root@,
    {
        FirmwareStager { root }
    }

    /// The record of a staged copy of `bytes`: its id, digest and size.
    /// The id is `fw-<pid>-<nanos in hex>`, the file `<root>/<id>.img`.
    pub fn staged_record(
        &self,
        device_id: &DeviceId,
        original_filename: &String,
        pid: u32,
        nanos: u128,
        bytes: &[u8],
    ) -> (r: StagedFirmware)
        ensures
            r.staged_id@ == "fw-"@ + dec_str(pid as nat) + "-"@ + hex_str(nanos as nat, 0),
            r.path@ == join_path(self.root@, r.staged_id@ + ".img"@),
            r.sha256@ == hex_bytes(sha256_of(bytes@)),
            r.size_bytes == bytes@.len(),
            r.original_filename@ == original_filename@,
            r.device_id.0@ == device_id.0@,
    {
        let id = concat(
            &concat(&concat(&str_chars("fw-"), &fmt_dec(pid as u64)), &str_chars("-")),
            &fmt_hex(nanos, 0),
        );
        let file = concat(&id, &str_chars(".img"));
        let path = join_path_chars(&str_chars(self.root.as_str()), &file);
        StagedFirmware {
            staged_id: string_from(&id),
            device_id: DeviceId(copy_string(&device_id.0)),
            original_filename: copy_string(original_filename),
            path: string_from(&path),
            sha256: sha256_hex(bytes),
            size_bytes: bytes.len() as u64,
        }
    }
}

/// `Path::join` of a relative component: a `'/'` between the two unless the
/// base is empty or already ends in one.
pub open spec fn join_path(base: Seq<char>, rel: Seq<char>) -> Seq<char> {
    if base.len() == 0 || base.last() == '/' {
        base + rel
    } else {
        base + "/"@ + rel
    }
}

pub fn join_path_chars(base: &[char], rel: &[char]) -> (r: Vec<char>)
    ensures
        r@ == join_path(base@, rel@),
{
    if base.len() == 0 || base[base.len() - 1] == '/' {
        concat(base, rel)
    } else {
        proof {
            reveal_strlit("/");
        }
        let slash = str_chars("/");
        concat(&concat(base, &slash), rel)
    }
}

// --------------------------------------------------------- transactions

/// The update-transport phases, which only an update-capable model may enter.
pub open spec fn update_phase(s: FirmwareTransactionState) -> bool {
    ||| s is EnteringUpdateMode
    ||| s is AwaitingUpdateDevice
    ||| s is Flashing
    ||| s is Finalizing
    ||| s is AwaitingNormalDevice
    ||| s is Verifying
    ||| s is RestoringProfile
}

/// Terminal failure states, reachable from anywhere.
pub open spec fn failure_state(s: FirmwareTransactionState) -> bool {
    ||| s is Rejected
    ||| s is PreflightFailed
    ||| s is UpdateDeviceMissing
    ||| s is FlashFailed
    ||| s is NormalDeviceMissing
    ||| s is VerificationFailed
    ||| s is RecoveryRequired
}

/// Position on the ordered success path, for the states on it.
pub open spec fn path_rank(s: FirmwareTransactionState) -> Option<nat> {
    match s {
        FirmwareTransactionState::Idle => Some(0),
        FirmwareTransactionState::PackageStaged => Some(1),
        FirmwareTransactionState::Validated => Some(2),
        FirmwareTransactionState::PreflightPassed => Some(3),
        FirmwareTransactionState::AudioDetached => Some(4),
        FirmwareTransactionState::EnteringUpdateMode => Some(5),
        FirmwareTransactionState::AwaitingUpdateDevice => Some(6),
        FirmwareTransactionState::Flashing => Some(7),
        FirmwareTransactionState::Finalizing => Some(8),
        FirmwareTransactionState::AwaitingNormalDevice => Some(9),
        FirmwareTransactionState::Verifying => Some(10),
        FirmwareTransactionState::RestoringProfile => Some(11),
        FirmwareTransactionState::Completed => Some(12),
        _ => None,
    }
}

/// The transition is on the list: one step forward on the success path, or
/// into a failure state.
pub open spec fn transition_listed(from: FirmwareTransactionState, next: FirmwareTransactionState) -> bool {
    ||| failure_state(next)
    ||| (path_rank(from) matches Some(a) && path_rank(next) matches Some(b) && b == a + 1)
}

/// The transition a transaction of `level` accepts.
pub open spec fn step_ok(
    level: FirmwareSupportLevel,
    from: FirmwareTransactionState,
    next: FirmwareTransactionState,
) -> bool {
    !(update_phase(next) && !level.spec_can_update()) && transition_listed(from, next)
}

/// Progress reported in each state.
pub open spec fn progress_of(s: FirmwareTransactionState) -> Option<u8> {
    match s {
        FirmwareTransactionState::Idle => Some(0),
        FirmwareTransactionState::PackageStaged => Some(5),
        FirmwareTransactionState::Validated => Some(10),
        FirmwareTransactionState::PreflightPassed => Some(15),
        FirmwareTransactionState::AudioDetached => Some(20),
        FirmwareTransactionState::EnteringUpdateMode => Some(25),
        FirmwareTransactionState::AwaitingUpdateDevice => Some(30),
        FirmwareTransactionState::Flashing => Some(50),
        FirmwareTransactionState::Finalizing => Some(80),
        FirmwareTransactionState::AwaitingNormalDevice => Some(85),
        FirmwareTransactionState::Verifying => Some(90),
        FirmwareTransactionState::RestoringProfile => Some(95),
        FirmwareTransactionState::Completed => Some(100),
        _ => None,
    }
}

pub fn progress_for(state: FirmwareTransactionState) -> (r: Option<u8>)
    ensures
        r == progress_of(state),
{
    match state {
        FirmwareTransactionState::Idle => Some(0),
        FirmwareTransactionState::PackageStaged => Some(5),
        FirmwareTransactionState::Validated => Some(10),
        FirmwareTransactionState::PreflightPassed => Some(15),
        FirmwareTransactionState::AudioDetached => Some(20),
        FirmwareTransactionState::EnteringUpdateMode => Some(25),
        FirmwareTransactionState::AwaitingUpdateDevice => Some(30),
        FirmwareTransactionState::Flashing => Some(50),
        FirmwareTransactionState::Finalizing => Some(80),
        FirmwareTransactionState::AwaitingNormalDevice => Some(85),
        FirmwareTransactionState::Verifying => Some(90),
        FirmwareTransactionState::RestoringProfile => Some(95),
        FirmwareTransactionState::Completed => Some(100),
        _ => None,
    }
}

fn rank_of(s: FirmwareTransactionState) -> (r: Option<u8>)
    ensures
        match path_rank(s) {
            Some(k) => r == Some(k as u8),
            None => r is None,
        },
{
    match s {
        FirmwareTransactionState::Idle => Some(0),
        FirmwareTransactionState::PackageStaged => Some(1),
        FirmwareTransactionState::Validated => Some(2),
        FirmwareTransactionState::PreflightPassed => Some(3),
        FirmwareTransactionState::AudioDetached => Some(4),
        FirmwareTransactionState::EnteringUpdateMode => Some(5),
        FirmwareTransactionState::AwaitingUpdateDevice => Some(6),
        FirmwareTransactionState::Flashing => Some(7),
        FirmwareTransactionState::Finalizing => Some(8),
        FirmwareTransactionState::AwaitingNormalDevice => Some(9),
        FirmwareTransactionState::Verifying => Some(10),
        FirmwareTransactionState::RestoringProfile => Some(11),
        FirmwareTransactionState::Completed => Some(12),
        _ => None,
    }
}

fn is_update_phase(s: FirmwareTransactionState) -> (r: bool)
    ensures
        r == update_phase(s),
{
    matches!(
        s,
        FirmwareTransactionState::EnteringUpdateMode | FirmwareTransactionState::AwaitingUpdateDevice
            | FirmwareTransactionState::Flashing | FirmwareTransactionState::Finalizing
            | FirmwareTransactionState::AwaitingNormalDevice | FirmwareTransactionState::Verifying
            | FirmwareTransactionState::RestoringProfile
    )
}

fn is_failure(s: FirmwareTransactionState) -> (r: bool)
    ensures
        r == failure_state(s),
{
    matches!(
        s,
        FirmwareTransactionState::Rejected | FirmwareTransactionState::PreflightFailed
            | FirmwareTransactionState::UpdateDeviceMissing | FirmwareTransactionState::FlashFailed
            | FirmwareTransactionState::NormalDeviceMissing
            | FirmwareTransactionState::VerificationFailed
            | FirmwareTransactionState::RecoveryRequired
    )
}

/// The `Debug` name of a state: the variant's own name.
pub open spec fn state_name_text(s: FirmwareTransactionState) -> Seq<char> {
    match s {
        FirmwareTransactionState::Idle => "Idle"@,
        FirmwareTransactionState::PackageStaged => "PackageStaged"@,
        FirmwareTransactionState::Validated => "Validated"@,
        FirmwareTransactionState::PreflightPassed => "PreflightPassed"@,
        FirmwareTransactionState::AudioDetached => "AudioDetached"@,
        FirmwareTransactionState::EnteringUpdateMode => "EnteringUpdateMode"@,
        FirmwareTransactionState::AwaitingUpdateDevice => "AwaitingUpdateDevice"@,
        FirmwareTransactionState::Flashing => "Flashing"@,
        FirmwareTransactionState::Finalizing => "Finalizing"@,
        FirmwareTransactionState::AwaitingNormalDevice => "AwaitingNormalDevice"@,
        FirmwareTransactionState::Verifying => "Verifying"@,
        FirmwareTransactionState::RestoringProfile => "RestoringProfile"@,
        FirmwareTransactionState::Completed => "Completed"@,
        FirmwareTransactionState::Rejected => "Rejected"@,
        FirmwareTransactionState::PreflightFailed => "PreflightFailed"@,
        FirmwareTransactionState::UpdateDeviceMissing => "UpdateDeviceMissing"@,
        FirmwareTransactionState::FlashFailed => "FlashFailed"@,
        FirmwareTransactionState::NormalDeviceMissing => "NormalDeviceMissing"@,
        FirmwareTransactionState::VerificationFailed => "VerificationFailed"@,
        FirmwareTransactionState::RecoveryRequired => "RecoveryRequired"@,
    }
}

/// The `Debug` name of a state.
pub fn state_name(s: FirmwareTransactionState) -> (r: &'static str)
    ensures
        r@ == state_name_text(s),
{
    match s {
        FirmwareTransactionState::Idle => "Idle",
        FirmwareTransactionState::PackageStaged => "PackageStaged",
        FirmwareTransactionState::Validated => "Validated",
        FirmwareTransactionState::PreflightPassed => "PreflightPassed",
        FirmwareTransactionState::AudioDetached => "AudioDetached",
        FirmwareTransactionState::EnteringUpdateMode => "EnteringUpdateMode",
        FirmwareTransactionState::AwaitingUpdateDevice => "AwaitingUpdateDevice",
        FirmwareTransactionState::Flashing => "Flashing",
        FirmwareTransactionState::Finalizing => "Finalizing",
        FirmwareTransactionState::AwaitingNormalDevice => "AwaitingNormalDevice",
        FirmwareTransactionState::Verifying => "Verifying",
        FirmwareTransactionState::RestoringProfile => "RestoringProfile",
        FirmwareTransactionState::Completed => "Completed",
        FirmwareTransactionState::Rejected => "Rejected",
        FirmwareTransactionState::PreflightFailed => "PreflightFailed",
        FirmwareTransactionState::UpdateDeviceMissing => "UpdateDeviceMissing",
        FirmwareTransactionState::FlashFailed => "FlashFailed",
        FirmwareTransactionState::NormalDeviceMissing => "NormalDeviceMissing",
        FirmwareTransactionState::VerificationFailed => "VerificationFailed",
        FirmwareTransactionState::RecoveryRequired => "RecoveryRequired",
    }
}

/// A firmware update transaction.
#[derive(Debug, Clone)]
pub struct FirmwareTransaction {
    pub status: FirmwareTransactionStatus,
    /// The support level the transaction was opened with; it decides whether
    /// the update phases may be entered.
    pub support_level: FirmwareSupportLevel,
}

impl FirmwareTransaction {
    pub open spec fn level(&self) -> FirmwareSupportLevel {
        self.support_level
    }

    /// The status the transaction reports.
    pub open spec fn current(&self) -> FirmwareTransactionStatus {
        self.status
    }

    /// A new transaction, idle at 0 %.
    pub fn new(
        transaction_id: String,
        device_id: DeviceId,
        staged_id: String,
        support_level: FirmwareSupportLevel,
    ) -> (r: Self)
        ensures
            r.current().transaction_id@ == transaction_id@,
            r.current().device_id.0@ == device_id.0@,
            r.current().staged_id@ == staged_id@,
            r.current().state == FirmwareTransactionState::Idle,
            r.current().message is None,
            r.current().progress_percent == Some(0u8),
            r.level() == support_level,
    {
        FirmwareTransaction {
            status: FirmwareTransactionStatus {
                transaction_id,
                device_id,
                staged_id,
                state: FirmwareTransactionState::Idle,
                message: None,
                progress_percent: Some(0),
            },
            support_level,
        }
    }

    /// Moves to `next` when the model and the ordered path allow it.
    pub fn transition(&mut self, next: FirmwareTransactionState) -> (r: Result<(), FirmwareError>)
        ensures
            final(self).level() == old(self).level(),
            final(self).current().transaction_id@ == old(self).current().transaction_id@,
            final(self).current().staged_id@ == old(self).current().staged_id@,
            update_phase(next) && !old(self).level().spec_can_update() ==> r matches Err(
                FirmwareError::UpdateNotEnabled,
            ),
            !(update_phase(next) && !old(self).level().spec_can_update()) && !transition_listed(
                old(self).current().state,
                next,
            ) ==> (r matches Err(FirmwareError::InvalidTransition(m)) && m@ == state_name_text(
                old(self).current().state,
            ) + " -> "@ + state_name_text(next)),
            r is Ok <==> step_ok(old(self).level(), old(self).current().state, next),
            r is Ok ==> final(self).current().state == next && final(self).current().progress_percent
                == progress_of(next),
            final(self).current().device_id == old(self).current().device_id,
            final(self).current().message == old(self).current().message,
            r is Err ==> final(self).current() == old(self).current(),
    {
        if is_update_phase(next) && !self.support_level.can_update() {
            return Err(FirmwareError::UpdateNotEnabled);
        }
        let from = self.status.state;
        let allowed = is_failure(next) || match (rank_of(from), rank_of(next)) {
            (Some(a), Some(b)) => b as u16 == a as u16 + 1,
            _ => false,
        };
        if !allowed {
            let text = concat(
                &concat(&str_chars(state_name(from)), &str_chars(" -> ")),
                &str_chars(state_name(next)),
            );
            return Err(FirmwareError::InvalidTransition(string_from(&text)));
        }
        self.status.state = next;
        self.status.progress_percent = progress_for(next);
        Ok(())
    }
}

/// A run of accepted transitions starting from `Idle`.
pub open spec fn accepted_run(level: FirmwareSupportLevel, run: Seq<FirmwareTransactionState>) -> bool {
    &&& run.len() > 0
    &&& run[0] == FirmwareTransactionState::Idle
    &&& forall|i: int| 0 <= i < run.len() - 1 ==> step_ok(level, #[trigger] run[i], run[i + 1])
}

/// A model that cannot update never enters the update transport, and so never
/// completes an update: every state of an accepted run is on the preparation
/// part of the path or a failure.
pub proof fn law_inventory_only_never_enters_update(
    level: FirmwareSupportLevel,
    run: Seq<FirmwareTransactionState>,
)
    requires
        !level.spec_can_update(),
        accepted_run(level, run),
    ensures
        forall|i: int|
            0 <= i < run.len() ==> !update_phase(#[trigger] run[i]) && !(run[i] is Completed),
{
    assert forall|i: int| 0 <= i < run.len() implies !update_phase(#[trigger] run[i]) && !(
    run[i] is Completed) by {
        lemma_run_prefix_safe(level, run, i);
    }
}

proof fn lemma_run_prefix_safe(level: FirmwareSupportLevel, run: Seq<FirmwareTransactionState>, i: int)
    requires
        !level.spec_can_update(),
        accepted_run(level, run),
        0 <= i < run.len(),
    ensures
        !update_phase(run[i]) && !(run[i] is Completed),
    decreases i,
{
    if i > 0 {
        lemma_run_prefix_safe(level, run, i - 1);
        assert(step_ok(level, run[i - 1], run[i]));
    }
}

/// Every accepted step forward on the success path raises the progress; the
/// success path is walked one state at a time, so `Completed` is only ever
/// entered from `RestoringProfile`.
pub proof fn law_ordered_path(
    level: FirmwareSupportLevel,
    from: FirmwareTransactionState,
    next: FirmwareTransactionState,
)
    requires
        step_ok(level, from, next),
        !failure_state(next),
    ensures
        path_rank(from) matches Some(a) && path_rank(next) matches Some(b) && b == a + 1,
        progress_of(from) matches Some(p) && progress_of(next) matches Some(q) && p < q,
        next is Completed ==> from is RestoringProfile,
{
}

/// Any state may fail: a failure state is accepted from everywhere.
pub proof fn law_failure_always_accepted(
    level: FirmwareSupportLevel,
    from: FirmwareTransactionState,
    next: FirmwareTransactionState,
)
    requires
        failure_state(next),
    ensures
        step_ok(level, from, next),
{
}

/// The transition rule, by its states. Each of the seven failure states
/// (Rejected, PreflightFailed, UpdateDeviceMissing, FlashFailed,
/// NormalDeviceMissing, VerificationFailed, RecoveryRequired) may follow any
/// state; otherwise only the next state on the path Idle, PackageStaged,
/// Validated, PreflightPassed, AudioDetached, EnteringUpdateMode,
/// AwaitingUpdateDevice, Flashing, Finalizing, AwaitingNormalDevice,
/// Verifying, RestoringProfile, Completed may. The update phases (from
/// EnteringUpdateMode to RestoringProfile) are entered only at a level that
/// can update.
pub proof fn law_transition_rule(
    level: FirmwareSupportLevel,
    from: FirmwareTransactionState,
    next: FirmwareTransactionState,
)
    ensures
        step_ok(level, from, next) <==> ({
            let failure = next is Rejected || next is PreflightFailed || next is UpdateDeviceMissing
                || next is FlashFailed || next is NormalDeviceMissing || next is VerificationFailed
                || next is RecoveryRequired;
            let update = next is EnteringUpdateMode || next is AwaitingUpdateDevice || next is Flashing
                || next is Finalizing || next is AwaitingNormalDevice || next is Verifying
                || next is RestoringProfile;
            let successor = (from is Idle && next is PackageStaged) || (from is PackageStaged
                && next is Validated) || (from is Validated && next is PreflightPassed) || (
            from is PreflightPassed && next is AudioDetached) || (from is AudioDetached
                && next is EnteringUpdateMode) || (from is EnteringUpdateMode
                && next is AwaitingUpdateDevice) || (from is AwaitingUpdateDevice && next is Flashing)
                || (from is Flashing && next is Finalizing) || (from is Finalizing
                && next is AwaitingNormalDevice) || (from is AwaitingNormalDevice && next is Verifying)
                || (from is Verifying && next is RestoringProfile) || (from is RestoringProfile
                && next is Completed);
            (failure || successor) && !(update && !level.spec_can_update())
        }),
{
}

/// Progress starts at 0, ends at 100 on completion, and is not reported in
/// any of the seven failure states.
pub proof fn law_progress_ends(s: FirmwareTransactionState)
    ensures
        progress_of(FirmwareTransactionState::Idle) == Some(0u8),
        progress_of(FirmwareTransactionState::Completed) == Some(100u8),
        s is Rejected || s is PreflightFailed || s is UpdateDeviceMissing || s is FlashFailed
            || s is NormalDeviceMissing || s is VerificationFailed || s is RecoveryRequired
            ==> progress_of(s) is None,
{
}

/// Records a transaction's status under a journal directory.
pub struct FirmwareJournal {
    pub root: String,
}

impl FirmwareJournal {
    pub fn new(root: String) -> (r: Self)
        ensures
            r.root@ == root@,
    {
        FirmwareJournal { root }
    }

    /// Where a transaction's status lives: `<root>/<id>.json`.
    pub fn record_path(&self, transaction_id: &str) -> (r: String)
        ensures
            r@ == join_path(self.root@, transaction_id@ + ".json"@),
    {
        let name = concat(&str_chars(transaction_id), &str_chars(".json"));
        string_from(&join_path_chars(&str_chars(self.root.as_str()), &name))
    }

    /// The temporary file a save writes first: `<root>/.<id>.tmp`.
    pub fn temp_path(&self, transaction_id: &str) -> (r: String)
        ensures
            r@ == join_path(self.root@, "."@ + transaction_id@ + ".tmp"@),
    {
        let name = concat(&concat(&str_chars("."), &str_chars(transaction_id)), &str_chars(".tmp"));
        string_from(&join_path_chars(&str_chars(self.root.as_str()), &name))
    }
}

} // verus!
