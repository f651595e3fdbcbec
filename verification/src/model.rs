//! The shared device, capability and backend model.
use crate::text::{concat, copy_opt, copy_string, dec_str, fmt_dec, opt_view, owned, str_chars, string_from};
use vstd::prelude::*;

verus! {

pub const IPC_PROTOCOL_VERSION: u32 = 12;

pub const IPC_MIN_PROTOCOL_VERSION: u32 = 2;

pub const PROFILE_SCHEMA_VERSION: u32 = 2;

/// Stable identifier of a logical device.
#[derive(Debug, Clone, PartialEq, Eq)]
pub struct DeviceId(pub String);

/// A control capability that a device may expose.
#[derive(Debug, Clone, Copy, PartialEq, Eq, Structural, Hash)]
pub enum Capability {
    Diagnostics,
    Lighting,
    Dpi,
    PollingRate,
    Profiles,
    Bindings,
    MacroAssignments,
    Audio,
    Microphone,
    MicDsp,
    MicFirmwareInventory,
    MicFirmwareUpdate,
    MicFirmwareRecovery,
    Eq,
    AudioRouting,
    BatteryStatus,
    Volume,
    Mute,
}

/// Position of a capability in declaration order; the order capabilities sort by.
pub open spec fn cap_rank(c: Capability) -> nat {
    match c {
        Capability::Diagnostics => 0,
        Capability::Lighting => 1,
        Capability::Dpi => 2,
        Capability::PollingRate => 3,
        Capability::Profiles => 4,
        Capability::Bindings => 5,
        Capability::MacroAssignments => 6,
        Capability::Audio => 7,
        Capability::Microphone => 8,
        Capability::MicDsp => 9,
        Capability::MicFirmwareInventory => 10,
        Capability::MicFirmwareUpdate => 11,
        Capability::MicFirmwareRecovery => 12,
        Capability::Eq => 13,
        Capability::AudioRouting => 14,
        Capability::BatteryStatus => 15,
        Capability::Volume => 16,
        Capability::Mute => 17,
    }
}

impl Capability {
    /// Position in declaration order.
    pub fn rank(self) -> (r: u8)
        ensures
            r as nat == cap_rank(self),
    {
        match self {
            Capability::Diagnostics => 0,
            Capability::Lighting => 1,
            Capability::Dpi => 2,
            Capability::PollingRate => 3,
            Capability::Profiles => 4,
            Capability::Bindings => 5,
            Capability::MacroAssignments => 6,
            Capability::Audio => 7,
            Capability::Microphone => 8,
            Capability::MicDsp => 9,
            Capability::MicFirmwareInventory => 10,
            Capability::MicFirmwareUpdate => 11,
            Capability::MicFirmwareRecovery => 12,
            Capability::Eq => 13,
            Capability::AudioRouting => 14,
            Capability::BatteryStatus => 15,
            Capability::Volume => 16,
            Capability::Mute => 17,
        }
    }
}

pub proof fn lemma_cap_rank_injective(a: Capability, b: Capability)
    ensures
        cap_rank(a) == cap_rank(b) <==> a == b,
{
}

/// A control backend.
#[derive(Debug, Clone, Copy, PartialEq, Eq, Structural, Hash)]
pub enum BackendKind {
    ForgeHxNative,
    ForgeHxDsp,
    LinuxStandard,
    OpenRgb,
    Ratbag,
    Diagnostic,
}

/// Health of a backend.
#[derive(Debug, Clone, PartialEq, Eq)]
pub enum BackendHealth {
    Ready,
    Unavailable,
    Disconnected,
    PermissionDenied,
    ProtocolMismatch,
    AmbiguousDeviceMatch,
    BackendError(String),
}

impl BackendHealth {
    pub fn is_ready(&self) -> (r: bool)
        ensures
            r == (*self is Ready),
    {
        matches!(self, BackendHealth::Ready)
    }
}

#[derive(Debug, Clone, PartialEq, Eq)]
pub struct BackendStatus {
    pub backend: BackendKind,
    pub health: BackendHealth,
    pub detail: Option<String>,
}

/// The backend that owns one capability of a device.
#[derive(Debug, Clone, PartialEq, Eq)]
pub struct CapabilityOwner {
    pub capability: Capability,
    pub backend: BackendKind,
    pub backend_device_id: Option<String>,
    pub verified: bool,
    pub writable: bool,
    pub detail: Option<String>,
}

/// A capability owner as plain values.
pub struct OwnerView {
    pub capability: Capability,
    pub backend: BackendKind,
    pub backend_device_id: Option<Seq<char>>,
    pub verified: bool,
    pub writable: bool,
    pub detail: Option<Seq<char>>,
}

impl View for CapabilityOwner {
    type V = OwnerView;

    open spec fn view(&self) -> OwnerView {
        OwnerView {
            capability: self.capability,
            backend: self.backend,
            backend_device_id: opt_view(self.backend_device_id),
            verified: self.verified,
            writable: self.writable,
            detail: opt_view(self.detail),
        }
    }
}

impl CapabilityOwner {
    /// A copy with the same contents.
    pub fn duplicate(&self) -> (r: Self)
        ensures
            r@ == self@,
    {
        CapabilityOwner {
            capability: self.capability,
            backend: self.backend,
            backend_device_id: copy_opt(&self.backend_device_id),
            verified: self.verified,
            writable: self.writable,
            detail: copy_opt(&self.detail),
        }
    }
}

#[derive(Debug, Clone, PartialEq, Eq)]
pub enum VendorFamily {
    HyperX,
    Kingston,
    Hp,
    Logitech,
    Corsair,
    Razer,
    SteelSeries,
    Generic(String),
    Unknown,
}

#[derive(Debug, Clone, Copy, PartialEq, Eq, Structural, Hash)]
pub enum DeviceClass {
    Keyboard,
    Mouse,
    Headset,
    Microphone,
    Controller,
    Webcam,
    Mousepad,
    Monitor,
    AudioInterface,
    UsbAudio,
    GenericHid,
    Other,
}

#[derive(Debug, Clone, Copy, PartialEq, Eq, Structural, Hash)]
pub enum SupportLevel {
    FullySupported,
    PartiallySupported,
    GenericControls,
    DiagnosticOnly,
    Unavailable,
}

#[derive(Debug, Clone, Copy, PartialEq, Eq, Structural, Hash)]
pub enum ConnectionKind {
    Usb,
    Hid,
    Audio,
    Composite,
}

#[derive(Debug, Clone, Copy, PartialEq, Eq, Structural, Hash)]
pub enum InterfaceSource {
    Hid,
    Usb,
    Audio,
}

#[derive(Debug, Clone, PartialEq, Eq)]
pub struct DeviceInterface {
    pub source: InterfaceSource,
    pub path: String,
    pub vendor_id: Option<u16>,
    pub product_id: Option<u16>,
    pub interface_number: Option<i32>,
    pub usage_page: Option<u16>,
    pub usage: Option<u16>,
    pub audio_node_id: Option<u32>,
    pub usb_parent: Option<String>,
}

/// A logical device with its interfaces, capabilities and owners.
#[derive(Debug, Clone, PartialEq, Eq)]
pub struct DeviceInfo {
    pub id: DeviceId,
    pub name: String,
    pub manufacturer: Option<String>,
    pub vendor_id: u16,
    pub product_id: u16,
    pub serial: Option<String>,
    pub vendor_family: VendorFamily,
    pub device_class: DeviceClass,
    pub support_level: SupportLevel,
    pub connection_kind: ConnectionKind,
    pub interfaces: Vec<DeviceInterface>,
    /// Capabilities exposed by a verified native driver.
    pub capabilities: Vec<Capability>,
    /// Capabilities exposed by safe Linux-standard interfaces.
    pub generic_capabilities: Vec<Capability>,
    pub capability_owners: Vec<CapabilityOwner>,
    pub battery_percent: Option<u8>,
    pub battery_state: Option<String>,
    /// Verified native driver; `None` blocks raw vendor writes.
    pub protocol: Option<String>,
}

/// Index of the first owner of `cap` in `owners`.
pub open spec fn first_owner(owners: Seq<CapabilityOwner>, cap: Capability) -> Option<int>
    decreases owners.len(),
{
    if owners.len() == 0 {
        None
    } else if owners[0].capability == cap {
        Some(0)
    } else {
        match first_owner(owners.drop_first(), cap) {
            Some(i) => Some(i + 1),
            None => None,
        }
    }
}

pub proof fn lemma_first_owner_is(owners: Seq<CapabilityOwner>, cap: Capability, k: int)
    requires
        0 <= k <= owners.len(),
        forall|j: int| 0 <= j < k ==> #[trigger] owners[j].capability != cap,
        k == owners.len() || owners[k].capability == cap,
    ensures
        k < owners.len() ==> first_owner(owners, cap) == Some(k),
        k == owners.len() ==> first_owner(owners, cap) is None,
    decreases k,
{
    if k > 0 {
        let t = owners.drop_first();
        assert forall|j: int| 0 <= j < k - 1 implies #[trigger] t[j].capability != cap by {
            assert(t[j] == owners[j + 1]);
        }
        assert(owners[0].capability != cap);
        if k < owners.len() {
            assert(t[k - 1] == owners[k]);
        }
        lemma_first_owner_is(t, cap, k - 1);
    }
}

/// The owner that `selected_owner` picks, if any.
pub open spec fn owner_of(owners: Seq<CapabilityOwner>, cap: Capability) -> Option<CapabilityOwner> {
    match first_owner(owners, cap) {
        Some(i) => Some(owners[i]),
        None => None,
    }
}

pub open spec fn is_hyperx_family(f: VendorFamily) -> bool {
    f is HyperX
}

/// Whether `v` holds `c`.
pub fn caps_contain(v: &Vec<Capability>, c: Capability) -> (r: bool)
    ensures
        r == v@.contains(c),
{
    let mut i: usize = 0;
    while i < v.len()
        invariant
            i <= v@.len(),
            forall|j: int| 0 <= j < i ==> v@[j] != c,
        decreases v@.len() - i,
    {
        if v[i] == c {
            return true;
        }
        i = i + 1;
    }
    false
}

/// The capabilities of a device, sorted in declaration order, each once.
pub open spec fn sorted_caps(s: Seq<Capability>) -> bool {
    forall|i: int, j: int| 0 <= i < j < s.len() ==> cap_rank(#[trigger] s[i]) < cap_rank(#[trigger] s[j])
}

impl DeviceInfo {
    /// The owner of `capability`: the first entry of `capability_owners` for it.
    pub fn selected_owner(&self, capability: Capability) -> (r: Option<&CapabilityOwner>)
        ensures
            match owner_of(self.capability_owners@, capability) {
                Some(o) => r == Some(&o),
                None => r is None,
            },
    {
        let mut i: usize = 0;
        while i < self.capability_owners.len()
            invariant
                i <= self.capability_owners@.len(),
                forall|j: int|
                    0 <= j < i ==> #[trigger] self.capability_owners@[j].capability != capability,
            decreases self.capability_owners@.len() - i,
        {
            if self.capability_owners[i].capability == capability {
                proof {
                    lemma_first_owner_is(self.capability_owners@, capability, i as int);
                }
                return Some(&self.capability_owners[i]);
            }
            i = i + 1;
        }
        proof {
            lemma_first_owner_is(self.capability_owners@, capability, i as int);
        }
        None
    }

    pub open spec fn spec_supports(&self, capability: Capability) -> bool {
        owner_of(self.capability_owners@, capability) is Some || self.capabilities@.contains(
            capability,
        ) || self.generic_capabilities@.contains(capability)
    }

    /// Some backend or capability list exposes `capability`.
    pub fn supports(&self, capability: Capability) -> (r: bool)
        ensures
            r == self.spec_supports(capability),
    {
        self.selected_owner(capability).is_some() || caps_contain(&self.capabilities, capability)
            || caps_contain(&self.generic_capabilities, capability)
    }

    pub open spec fn spec_supports_vendor(&self, capability: Capability) -> bool {
        match owner_of(self.capability_owners@, capability) {
            Some(o) => self.protocol is Some && o.backend == BackendKind::ForgeHxNative
                && o.writable && o.verified,
            None => self.protocol is Some && self.capabilities@.contains(capability),
        }
    }

    /// A verified, writable native driver controls `capability`; a device
    /// without a verified native driver takes no raw vendor write at all.
    pub fn supports_vendor(&self, capability: Capability) -> (r: bool)
        ensures
            r == self.spec_supports_vendor(capability),
    {
        match self.selected_owner(capability) {
            Some(owner) => self.protocol.is_some() && owner.backend == BackendKind::ForgeHxNative
                && owner.writable && owner.verified,
            None => self.protocol.is_some() && caps_contain(&self.capabilities, capability),
        }
    }

    pub open spec fn spec_supports_generic(&self, capability: Capability) -> bool {
        match owner_of(self.capability_owners@, capability) {
            Some(o) => o.backend == BackendKind::LinuxStandard && o.writable,
            None => self.generic_capabilities@.contains(capability),
        }
    }

    /// A writable Linux-standard interface controls `capability`.
    pub fn supports_generic(&self, capability: Capability) -> (r: bool)
        ensures
            r == self.spec_supports_generic(capability),
    {
        match self.selected_owner(capability) {
            Some(owner) => owner.backend == BackendKind::LinuxStandard && owner.writable,
            None => caps_contain(&self.generic_capabilities, capability),
        }
    }

    pub open spec fn spec_any_capability(&self, c: Capability) -> bool {
        (exists|i: int|
            0 <= i < self.capability_owners@.len() && #[trigger] self.capability_owners@[i].capability
                == c) || self.capabilities@.contains(c) || self.generic_capabilities@.contains(c)
    }

    /// Every capability that an owner or a capability list names, in
    /// declaration order, each once.
    pub fn all_capabilities(&self) -> (r: Vec<Capability>)
        ensures
            sorted_caps(r@),
            forall|c: Capability| r@.contains(c) <==> self.spec_any_capability(c),
    {
        let mut out: Vec<Capability> = Vec::new();
        let mut i: usize = 0;
        while i < self.capability_owners.len()
            invariant
                i <= self.capability_owners@.len(),
                sorted_caps(out@),
                forall|c: Capability|
                    out@.contains(c) <==> exists|j: int|
                        0 <= j < i && #[trigger] self.capability_owners@[j].capability == c,
            decreases self.capability_owners@.len() - i,
        {
            let c = self.capability_owners[i].capability;
            insert_sorted(&mut out, c);
            proof {
                assert forall|d: Capability| out@.contains(d) <==> exists|j: int|
                    0 <= j < i + 1 && #[trigger] self.capability_owners@[j].capability == d by {
                    if out@.contains(d) && d != c {
                        let j = choose|j: int|
                            0 <= j < i && #[trigger] self.capability_owners@[j].capability == d;
                    }
                    if d == c {
                        assert(self.capability_owners@[i as int].capability == d);
                    }
                }
            }
            i = i + 1;
        }
        let mut k: usize = 0;
        while k < self.capabilities.len()
            invariant
                k <= self.capabilities@.len(),
                i == self.capability_owners@.len(),
                sorted_caps(out@),
                forall|c: Capability|
                    out@.contains(c) <==> (exists|j: int|
                        0 <= j < i && #[trigger] self.capability_owners@[j].capability == c)
                        || self.capabilities@.take(k as int).contains(c),
            decreases self.capabilities@.len() - k,
        {
            let c = self.capabilities[k];
            insert_sorted(&mut out, c);
            proof {
                assert(self.capabilities@.take(k as int + 1) == self.capabilities@.take(
                    k as int,
                ).push(c));
                lemma_push_contains(self.capabilities@.take(k as int), c);
            }
            k = k + 1;
        }
        let mut g: usize = 0;
        while g < self.generic_capabilities.len()
            invariant
                g <= self.generic_capabilities@.len(),
                i == self.capability_owners@.len(),
                k == self.capabilities@.len(),
                sorted_caps(out@),
                forall|c: Capability|
                    out@.contains(c) <==> (exists|j: int|
                        0 <= j < i && #[trigger] self.capability_owners@[j].capability == c)
                        || self.capabilities@.take(k as int).contains(c)
                        || self.generic_capabilities@.take(g as int).contains(c),
            decreases self.generic_capabilities@.len() - g,
        {
            let c = self.generic_capabilities[g];
            insert_sorted(&mut out, c);
            proof {
                assert(self.generic_capabilities@.take(g as int + 1)
                    == self.generic_capabilities@.take(g as int).push(c));
                lemma_push_contains(self.generic_capabilities@.take(g as int), c);
            }
            g = g + 1;
        }
        assert(self.capabilities@.take(k as int) == self.capabilities@);
        assert(self.generic_capabilities@.take(g as int) == self.generic_capabilities@);
        out
    }

    pub fn is_hyperx(&self) -> (r: bool)
        ensures
            r == is_hyperx_family(self.vendor_family),
    {
        matches!(self.vendor_family, VendorFamily::HyperX)
    }
}

pub proof fn lemma_push_contains<T>(s: Seq<T>, x: T)
    ensures
        forall|d: T| #[trigger] s.push(x).contains(d) <==> (s.contains(d) || d == x),
{
    assert forall|d: T| #[trigger] s.push(x).contains(d) <==> (s.contains(d) || d == x) by {
        if s.contains(d) {
            let j = choose|j: int| 0 <= j < s.len() && s[j] == d;
            assert(s.push(x)[j] == d);
        }
        if d == x {
            assert(s.push(x)[s.len() as int] == d);
        }
        if s.push(x).contains(d) {
            let j = choose|j: int| 0 <= j < s.push(x).len() && s.push(x)[j] == d;
            if j < s.len() {
                assert(s[j] == d);
            }
        }
    }
}

/// The distinct capabilities of `v`, in declaration order: what `sort`
/// followed by `dedup` leaves.
pub fn sort_dedup(v: &Vec<Capability>) -> (r: Vec<Capability>)
    ensures
        sorted_caps(r@),
        forall|c: Capability| r@.contains(c) <==> v@.contains(c),
{
    let mut out: Vec<Capability> = Vec::new();
    let mut i: usize = 0;
    while i < v.len()
        invariant
            i <= v@.len(),
            sorted_caps(out@),
            forall|c: Capability| out@.contains(c) <==> v@.take(i as int).contains(c),
        decreases v@.len() - i,
    {
        let c = v[i];
        let ghost before = out@;
        insert_sorted(&mut out, c);
        proof {
            let t = v@.take(i as int);
            let t1 = v@.take(i as int + 1);
            assert(t1 =~= t.push(c));
            assert forall|d: Capability| out@.contains(d) <==> t1.contains(d) by {
                if t1.contains(d) {
                    let j = choose|j: int| 0 <= j < t1.len() && t1[j] == d;
                    if j < i {
                        assert(t[j] == d);
                        assert(t.contains(d));
                    }
                }
                if out@.contains(d) {
                    if d == c {
                        assert(t1[i as int] == d);
                    } else {
                        assert(before.contains(d));
                        assert(t.contains(d));
                        let j = choose|j: int| 0 <= j < t.len() && t[j] == d;
                        assert(t1[j] == d);
                    }
                }
            }
        }
        i = i + 1;
    }
    assert(v@.take(v@.len() as int) == v@);
    out
}

/// Inserts `c` into a sorted, duplicate-free list unless it is there.
pub fn insert_sorted(v: &mut Vec<Capability>, c: Capability)
    requires
        sorted_caps(old(v)@),
    ensures
        sorted_caps(final(v)@),
        forall|d: Capability| final(v)@.contains(d) <==> (old(v)@.contains(d) || d == c),
{
    let r = c.rank();
    let mut i: usize = 0;
    while i < v.len() && v[i].rank() < r
        invariant
            i <= v@.len(),
            v@ == old(v)@,
            sorted_caps(v@),
            forall|j: int| 0 <= j < i ==> cap_rank(#[trigger] v@[j]) < r,
        decreases v@.len() - i,
    {
        i = i + 1;
    }
    if i < v.len() && v[i] == c {
        assert(v@[i as int] == c);
        assert(v@.contains(c));
        return;
    }
    proof {
        if i < v@.len() {
            lemma_cap_rank_injective(v@[i as int], c);
        }
    }
    let ghost before = v@;
    v.insert(i, c);
    proof {
        assert forall|a: int, b: int| 0 <= a < b < v@.len() implies cap_rank(#[trigger] v@[a])
            < cap_rank(#[trigger] v@[b]) by {
            if b < i {
                assert(v@[a] == before[a] && v@[b] == before[b]);
            } else if b == i {
                assert(v@[a] == before[a]);
            } else if a < i {
                assert(v@[a] == before[a] && v@[b] == before[b - 1]);
                assert(cap_rank(before[i as int]) >= r);
                if b - 1 > i {
                    assert(cap_rank(before[i as int]) < cap_rank(before[b - 1]));
                }
            } else if a == i {
                assert(v@[b] == before[b - 1]);
                if b - 1 > i {
                    assert(cap_rank(before[i as int]) < cap_rank(before[b - 1]));
                }
            } else {
                assert(v@[a] == before[a - 1] && v@[b] == before[b - 1]);
            }
        }
        assert forall|d: Capability| #[trigger] v@.contains(d) <==> (before.contains(d) || d == c) by {
            if before.contains(d) {
                let j = choose|j: int| 0 <= j < before.len() && before[j] == d;
                if j < i {
                    assert(v@[j] == d);
                } else {
                    assert(v@[j + 1] == d);
                }
                assert(v@.contains(d));
            }
            if d == c {
                assert(v@[i as int] == d);
                assert(v@.contains(d));
            }
            if v@.contains(d) {
                let j = choose|j: int| 0 <= j < v@.len() && v@[j] == d;
                if j < i {
                    assert(before[j] == d);
                } else if j > i {
                    assert(before[j - 1] == d);
                }
            }
        }
        assert(before == old(v)@);
        assert(forall|d: Capability| v@.contains(d) <==> (old(v)@.contains(d) || d == c));
    }
}

/// How far a microphone's firmware can be managed.
#[derive(Debug, Clone, Copy, PartialEq, Eq, Structural, Hash)]
pub enum FirmwareSupportLevel {
    InventoryOnly,
    ValidatedPackages,
    UpdateCapable,
    RecoveryCapable,
}

impl FirmwareSupportLevel {
    pub open spec fn spec_can_update(self) -> bool {
        self is UpdateCapable || self is RecoveryCapable
    }

    pub open spec fn spec_can_recover(self) -> bool {
        self is RecoveryCapable
    }

    pub fn can_update(self) -> (r: bool)
        ensures
            r == self.spec_can_update(),
    {
        matches!(self, FirmwareSupportLevel::UpdateCapable | FirmwareSupportLevel::RecoveryCapable)
    }

    pub fn can_recover(self) -> (r: bool)
        ensures
            r == self.spec_can_recover(),
    {
        matches!(self, FirmwareSupportLevel::RecoveryCapable)
    }
}

/// Recovery is the stronger level: whatever can recover can also update.
pub proof fn law_recovery_implies_update(level: FirmwareSupportLevel)
    ensures
        level.spec_can_recover() ==> level.spec_can_update(),
{
}

#[derive(Debug, Clone)]
pub struct FirmwareIdentity {
    pub device_id: DeviceId,
    pub model: String,
    pub hardware_revision: Option<String>,
    pub firmware_version: Option<String>,
    pub firmware_version_source: Option<String>,
    pub bootloader_version: Option<String>,
    pub support_level: FirmwareSupportLevel,
}

#[derive(Debug, Clone, Copy, PartialEq, Eq, Structural, Hash)]
pub enum FirmwareValidation {
    Valid,
    UnsupportedFormat,
    ModelMismatch,
    HardwareRevisionMismatch,
    VersionUnknown,
    HashMismatch,
    SignatureInvalid,
    AmbiguousTarget,
}

impl FirmwareValidation {
    /// The verdict's name.
    pub open spec fn name_spec(self) -> Seq<char> {
        match self {
            FirmwareValidation::Valid => "Valid"@,
            FirmwareValidation::UnsupportedFormat => "UnsupportedFormat"@,
            FirmwareValidation::ModelMismatch => "ModelMismatch"@,
            FirmwareValidation::HardwareRevisionMismatch => "HardwareRevisionMismatch"@,
            FirmwareValidation::VersionUnknown => "VersionUnknown"@,
            FirmwareValidation::HashMismatch => "HashMismatch"@,
            FirmwareValidation::SignatureInvalid => "SignatureInvalid"@,
            FirmwareValidation::AmbiguousTarget => "AmbiguousTarget"@,
        }
    }

    pub fn name(self) -> (r: &'static str)
        ensures
            r@ == self.name_spec(),
    {
        match self {
            FirmwareValidation::Valid => "Valid",
            FirmwareValidation::UnsupportedFormat => "UnsupportedFormat",
            FirmwareValidation::ModelMismatch => "ModelMismatch",
            FirmwareValidation::HardwareRevisionMismatch => "HardwareRevisionMismatch",
            FirmwareValidation::VersionUnknown => "VersionUnknown",
            FirmwareValidation::HashMismatch => "HashMismatch",
            FirmwareValidation::SignatureInvalid => "SignatureInvalid",
            FirmwareValidation::AmbiguousTarget => "AmbiguousTarget",
        }
    }
}

#[derive(Debug, Clone)]
pub struct FirmwarePackageInfo {
    pub staged_id: String,
    pub original_filename: String,
    pub sha256: String,
    pub size_bytes: u64,
    pub parsed_format: String,
    pub claimed_model: Option<String>,
    pub claimed_hardware_revision: Option<String>,
    pub claimed_firmware_version: Option<String>,
    pub validation: FirmwareValidation,
    pub vendor_signature_verified: bool,
}

#[derive(Debug, Clone, Copy, PartialEq, Eq, Structural, Hash)]
pub enum FirmwareTransactionState {
    Idle,
    PackageStaged,
    Validated,
    PreflightPassed,
    AudioDetached,
    EnteringUpdateMode,
    AwaitingUpdateDevice,
    Flashing,
    Finalizing,
    AwaitingNormalDevice,
    Verifying,
    RestoringProfile,
    Completed,
    Rejected,
    PreflightFailed,
    UpdateDeviceMissing,
    FlashFailed,
    NormalDeviceMissing,
    VerificationFailed,
    RecoveryRequired,
}

#[derive(Debug, Clone)]
pub struct FirmwareTransactionStatus {
    pub transaction_id: String,
    pub device_id: DeviceId,
    pub staged_id: String,
    pub state: FirmwareTransactionState,
    pub message: Option<String>,
    pub progress_percent: Option<u8>,
}

#[derive(Debug, Clone, Copy, PartialEq, Eq, Structural)]
pub enum LightingEffect {
    Static,
    Breathing,
    Wave,
    Spectrum,
}

#[derive(Debug, Clone, PartialEq, Eq)]
pub struct LightingConfig {
    pub effect: LightingEffect,
    pub color: [u8; 3],
    pub brightness: u8,
    pub speed: u8,
}

impl LightingConfig {
    /// White, static, full brightness, half speed.
    pub fn default_config() -> (r: LightingConfig)
        ensures
            r.effect == LightingEffect::Static,
            r.color@ == seq![255u8, 255u8, 255u8],
            r.brightness == 100,
            r.speed == 50,
    {
        LightingConfig { effect: LightingEffect::Static, color: [255, 255, 255], brightness: 100, speed: 50 }
    }
}

#[derive(Debug, Clone)]
pub struct DpiConfig {
    pub stages: Vec<u16>,
    pub active_stage: usize,
}

#[derive(Debug, Clone, PartialEq, Eq)]
pub struct KeyBinding {
    pub key: String,
    pub action: String,
}

#[derive(Debug, Clone)]
pub struct MouseConfig {
    pub dpi: DpiConfig,
    pub report_rate_hz: Option<u16>,
    pub active_profile: Option<u8>,
    pub button_assignments: Vec<KeyBinding>,
    pub lift_off_distance_mm: Option<u8>,
}

#[derive(Debug, Clone)]
pub struct LightingModeMetadata {
    pub index: u32,
    pub name: String,
    pub speed_min: u32,
    pub speed_max: u32,
    pub brightness_min: Option<u32>,
    pub brightness_max: Option<u32>,
}

#[derive(Debug, Clone)]
pub struct LightingZoneMetadata {
    pub index: u32,
    pub name: String,
    pub led_count: u32,
}

#[derive(Debug, Clone)]
pub struct LightingControllerMetadata {
    pub backend_device_id: String,
    pub name: String,
    pub vendor: String,
    pub description: String,
    pub version: String,
    pub serial: String,
    pub location: String,
    pub led_count: u16,
    pub modes: Vec<LightingModeMetadata>,
    pub zones: Vec<LightingZoneMetadata>,
    pub protocol_version: u32,
}

#[derive(Debug, Clone, PartialEq, Eq)]
pub struct MouseDeviceState {
    pub backend_device_id: String,
    pub active_profile: Option<u8>,
    pub dpi_stages: Vec<u16>,
    pub active_dpi_stage: Option<usize>,
    pub report_rate_hz: Option<u16>,
    pub button_count: Option<u16>,
    pub button_assignments: Vec<KeyBinding>,
    pub lift_off_distance_mm: Option<u8>,
    pub lighting: Option<LightingConfig>,
}

#[derive(Debug, Clone, Copy, PartialEq, Eq, Structural, Hash)]
pub enum MouseProtocolFamily {
    HasteV1,
    LegacyPulsefire,
    Dart,
    Haste2,
    Fuse,
    Saga,
    Unknown,
}

#[derive(Debug, Clone)]
pub struct MouseLimits {
    pub dpi_min: Option<u16>,
    pub dpi_max: Option<u16>,
    pub dpi_step: Option<u16>,
    pub max_dpi_stages: Option<u8>,
    pub polling_rates_hz: Vec<u16>,
    pub button_count: Option<u16>,
    pub onboard_profiles: Option<u8>,
    pub wireless: bool,
    pub battery: bool,
    pub lift_off_distances_mm: Vec<u8>,
}

#[derive(Debug, Clone)]
pub struct MouseModelInfo {
    pub id: String,
    pub name: String,
    pub protocol_family: MouseProtocolFamily,
    pub limits: MouseLimits,
    pub exact_hardware_match: bool,
    pub native_driver: Option<String>,
    pub complete: bool,
}

#[derive(Debug, Clone, Copy, PartialEq, Eq, Structural, Hash)]
pub enum KeyboardProtocolFamily {
    AlloyLegacy,
    AlloyOrigins,
    AlloyRise,
    Origins2,
    Eve,
    Unknown,
}

#[derive(Debug, Clone, Copy, PartialEq, Eq, Structural)]
pub enum KeyboardLightingTopology {
    /// No lighting (`None` in the wire format).
    Unlit,
    Zone { zones: u16 },
    PerKey,
}

#[derive(Debug, Clone)]
pub struct KeyboardLimits {
    pub lighting: KeyboardLightingTopology,
    pub polling_rates_hz: Vec<u16>,
    pub onboard_profiles: Option<u8>,
    pub wireless: bool,
    pub battery: bool,
    pub hall_effect: bool,
    pub rapid_trigger: bool,
}

#[derive(Debug, Clone)]
pub struct KeyboardModelInfo {
    pub id: String,
    pub name: String,
    pub protocol_family: KeyboardProtocolFamily,
    pub limits: KeyboardLimits,
    pub exact_hardware_match: bool,
    pub native_driver: Option<String>,
    pub complete: bool,
}

#[derive(Debug, Clone, Copy, PartialEq, Eq, Structural)]
pub enum EqFilterKind {
    Peaking,
    LowShelf,
    HighShelf,
}

#[derive(Debug, Clone, Copy, PartialEq, Eq, Structural)]
pub enum MicEqFilterKind {
    Bell,
    LowShelf,
    HighShelf,
    HighPass,
    LowPass,
    Notch,
}

#[derive(Debug, Clone, Copy, PartialEq, Eq, Structural)]
pub enum VoicePilotMode {
    Auto,
    Manual,
    Locked,
    Bypassed,
}

#[derive(Debug, Clone, Copy, PartialEq, Eq, Structural)]
pub enum VoicePilotTarget {
    Natural,
    Clear,
    Warm,
    Full,
    Broadcast,
    BroadcastFull,
    DeepAndFull,
    CrispStream,
    VoiceChat,
    Custom,
}

#[derive(Debug, Clone, Copy, PartialEq, Eq, Structural)]
pub enum NoiseAdaptationState {
    Learning,
    Holding,
    Suppressing,
    SpeechProtected,
    ReferenceUnavailable,
}

/// One diagnostic line per raw interface of a device.
#[derive(Debug, Clone, PartialEq, Eq)]
pub struct DiagnosticReport {
    pub device_id: DeviceId,
    pub source: InterfaceSource,
    pub path: String,
    pub vendor_id: Option<u16>,
    pub product_id: Option<u16>,
    pub manufacturer: Option<String>,
    pub product: Option<String>,
    pub serial: Option<String>,
    pub interface_number: Option<i32>,
    pub usage_page: Option<u16>,
    pub usage: Option<u16>,
    pub audio_node_id: Option<u32>,
    pub usb_parent: Option<String>,
    pub protocol_match: Option<String>,
    pub support_level: SupportLevel,
    pub write_protected: bool,
}

/// Errors of the ForgeHX core.
#[derive(Debug, Clone, PartialEq, Eq)]
pub enum ForgeHxError {
    UnsupportedSchema(u32),
    InvalidProfile(String),
    Unsupported(Capability),
    DeviceNotFound(DeviceId),
    BackendUnavailable(String),
    BackendProtocol(String),
    AmbiguousDevice(String),
    Permission(String),
    AudioUnavailable(String),
    Io(String),
    ProtocolVersion { expected: u32, got: u32 },
}

impl Capability {
    /// The capability's name as `{:?}` prints it.
    pub open spec fn name_spec(self) -> Seq<char> {
        match self {
            Capability::Diagnostics => "Diagnostics"@,
            Capability::Lighting => "Lighting"@,
            Capability::Dpi => "Dpi"@,
            Capability::PollingRate => "PollingRate"@,
            Capability::Profiles => "Profiles"@,
            Capability::Bindings => "Bindings"@,
            Capability::MacroAssignments => "MacroAssignments"@,
            Capability::Audio => "Audio"@,
            Capability::Microphone => "Microphone"@,
            Capability::MicDsp => "MicDsp"@,
            Capability::MicFirmwareInventory => "MicFirmwareInventory"@,
            Capability::MicFirmwareUpdate => "MicFirmwareUpdate"@,
            Capability::MicFirmwareRecovery => "MicFirmwareRecovery"@,
            Capability::Eq => "Eq"@,
            Capability::AudioRouting => "AudioRouting"@,
            Capability::BatteryStatus => "BatteryStatus"@,
            Capability::Volume => "Volume"@,
            Capability::Mute => "Mute"@,
        }
    }

    pub fn name(self) -> (r: &'static str)
        ensures
            r@ == self.name_spec(),
    {
        match self {
            Capability::Diagnostics => "Diagnostics",
            Capability::Lighting => "Lighting",
            Capability::Dpi => "Dpi",
            Capability::PollingRate => "PollingRate",
            Capability::Profiles => "Profiles",
            Capability::Bindings => "Bindings",
            Capability::MacroAssignments => "MacroAssignments",
            Capability::Audio => "Audio",
            Capability::Microphone => "Microphone",
            Capability::MicDsp => "MicDsp",
            Capability::MicFirmwareInventory => "MicFirmwareInventory",
            Capability::MicFirmwareUpdate => "MicFirmwareUpdate",
            Capability::MicFirmwareRecovery => "MicFirmwareRecovery",
            Capability::Eq => "Eq",
            Capability::AudioRouting => "AudioRouting",
            Capability::BatteryStatus => "BatteryStatus",
            Capability::Volume => "Volume",
            Capability::Mute => "Mute",
        }
    }
}

impl DeviceClass {
    /// The name the deviceClass is shown with.
    pub open spec fn label_spec(self) -> Seq<char> {
        match self {
            DeviceClass::Keyboard => "Keyboard"@,
            DeviceClass::Mouse => "Mouse"@,
            DeviceClass::Headset => "Headset"@,
            DeviceClass::Microphone => "Microphone"@,
            DeviceClass::Controller => "Controller"@,
            DeviceClass::Webcam => "Webcam"@,
            DeviceClass::Mousepad => "Mousepad"@,
            DeviceClass::Monitor => "Monitor"@,
            DeviceClass::AudioInterface => "Audio Interface"@,
            DeviceClass::UsbAudio => "USB Audio"@,
            DeviceClass::GenericHid => "HID Device"@,
            DeviceClass::Other => "Other"@,
        }
    }

    pub fn label(self) -> (r: &'static str)
        ensures
            r@ == self.label_spec(),
    {
        match self {
            DeviceClass::Keyboard => "Keyboard",
            DeviceClass::Mouse => "Mouse",
            DeviceClass::Headset => "Headset",
            DeviceClass::Microphone => "Microphone",
            DeviceClass::Controller => "Controller",
            DeviceClass::Webcam => "Webcam",
            DeviceClass::Mousepad => "Mousepad",
            DeviceClass::Monitor => "Monitor",
            DeviceClass::AudioInterface => "Audio Interface",
            DeviceClass::UsbAudio => "USB Audio",
            DeviceClass::GenericHid => "HID Device",
            DeviceClass::Other => "Other",
        }
    }
}

impl SupportLevel {
    /// The name the supportLevel is shown with.
    pub open spec fn label_spec(self) -> Seq<char> {
        match self {
            SupportLevel::FullySupported => "Fully Supported"@,
            SupportLevel::PartiallySupported => "Partially Supported"@,
            SupportLevel::GenericControls => "Generic Controls"@,
            SupportLevel::DiagnosticOnly => "Diagnostic Only"@,
            SupportLevel::Unavailable => "Unavailable"@,
        }
    }

    pub fn label(self) -> (r: &'static str)
        ensures
            r@ == self.label_spec(),
    {
        match self {
            SupportLevel::FullySupported => "Fully Supported",
            SupportLevel::PartiallySupported => "Partially Supported",
            SupportLevel::GenericControls => "Generic Controls",
            SupportLevel::DiagnosticOnly => "Diagnostic Only",
            SupportLevel::Unavailable => "Unavailable",
        }
    }
}

impl MouseProtocolFamily {
    /// The name the mouseProtocolFamily is shown with.
    pub open spec fn label_spec(self) -> Seq<char> {
        match self {
            MouseProtocolFamily::HasteV1 => "Haste v1"@,
            MouseProtocolFamily::LegacyPulsefire => "Legacy Pulsefire"@,
            MouseProtocolFamily::Dart => "Dart"@,
            MouseProtocolFamily::Haste2 => "Haste 2"@,
            MouseProtocolFamily::Fuse => "Fuse"@,
            MouseProtocolFamily::Saga => "Saga"@,
            MouseProtocolFamily::Unknown => "Unknown"@,
        }
    }

    pub fn label(self) -> (r: &'static str)
        ensures
            r@ == self.label_spec(),
    {
        match self {
            MouseProtocolFamily::HasteV1 => "Haste v1",
            MouseProtocolFamily::LegacyPulsefire => "Legacy Pulsefire",
            MouseProtocolFamily::Dart => "Dart",
            MouseProtocolFamily::Haste2 => "Haste 2",
            MouseProtocolFamily::Fuse => "Fuse",
            MouseProtocolFamily::Saga => "Saga",
            MouseProtocolFamily::Unknown => "Unknown",
        }
    }
}

impl KeyboardProtocolFamily {
    /// The name the keyboardProtocolFamily is shown with.
    pub open spec fn label_spec(self) -> Seq<char> {
        match self {
            KeyboardProtocolFamily::AlloyLegacy => "Alloy Legacy"@,
            KeyboardProtocolFamily::AlloyOrigins => "Alloy Origins"@,
            KeyboardProtocolFamily::AlloyRise => "Alloy Rise"@,
            KeyboardProtocolFamily::Origins2 => "Origins 2"@,
            KeyboardProtocolFamily::Eve => "Eve"@,
            KeyboardProtocolFamily::Unknown => "Unknown"@,
        }
    }

    pub fn label(self) -> (r: &'static str)
        ensures
            r@ == self.label_spec(),
    {
        match self {
            KeyboardProtocolFamily::AlloyLegacy => "Alloy Legacy",
            KeyboardProtocolFamily::AlloyOrigins => "Alloy Origins",
            KeyboardProtocolFamily::AlloyRise => "Alloy Rise",
            KeyboardProtocolFamily::Origins2 => "Origins 2",
            KeyboardProtocolFamily::Eve => "Eve",
            KeyboardProtocolFamily::Unknown => "Unknown",
        }
    }
}

impl VendorFamily {
    /// The name the vendor family is shown with: a generic vendor by its own name.
    pub open spec fn label_spec(&self) -> Seq<char> {
        match self {
            VendorFamily::HyperX => "HyperX"@,
            VendorFamily::Kingston => "Kingston"@,
            VendorFamily::Hp => "HP"@,
            VendorFamily::Logitech => "Logitech"@,
            VendorFamily::Corsair => "Corsair"@,
            VendorFamily::Razer => "Razer"@,
            VendorFamily::SteelSeries => "SteelSeries"@,
            VendorFamily::Generic(n) => n@,
            VendorFamily::Unknown => "Unknown"@,
        }
    }

    pub fn label(&self) -> (r: String)
        ensures
            r@ == self.label_spec(),
    {
        match self {
            VendorFamily::HyperX => owned("HyperX"),
            VendorFamily::Kingston => owned("Kingston"),
            VendorFamily::Hp => owned("HP"),
            VendorFamily::Logitech => owned("Logitech"),
            VendorFamily::Corsair => owned("Corsair"),
            VendorFamily::Razer => owned("Razer"),
            VendorFamily::SteelSeries => owned("SteelSeries"),
            VendorFamily::Generic(n) => copy_string(n),
            VendorFamily::Unknown => owned("Unknown"),
        }
    }
}

impl BackendKind {
    /// The backend's display name.
    pub open spec fn label_spec(self) -> Seq<char> {
        match self {
            BackendKind::ForgeHxNative => "ForgeHX Native"@,
            BackendKind::ForgeHxDsp => "ForgeHX DSP"@,
            BackendKind::LinuxStandard => "Linux Standard"@,
            BackendKind::OpenRgb => "OpenRGB"@,
            BackendKind::Ratbag => "libratbag"@,
            BackendKind::Diagnostic => "Diagnostic"@,
        }
    }

    pub fn label(self) -> (r: &'static str)
        ensures
            r@ == self.label_spec(),
    {
        match self {
            BackendKind::ForgeHxNative => "ForgeHX Native",
            BackendKind::ForgeHxDsp => "ForgeHX DSP",
            BackendKind::LinuxStandard => "Linux Standard",
            BackendKind::OpenRgb => "OpenRGB",
            BackendKind::Ratbag => "libratbag",
            BackendKind::Diagnostic => "Diagnostic",
        }
    }
}

impl ForgeHxError {
    /// The text the error reads as.
    pub open spec fn text(&self) -> Seq<char> {
        match self {
            ForgeHxError::UnsupportedSchema(v) => "unsupported profile schema "@ + dec_str(*v as nat),
            ForgeHxError::InvalidProfile(m) => "invalid profile: "@ + m@,
            ForgeHxError::Unsupported(c) => "unsupported capability: "@ + c.name_spec(),
            ForgeHxError::DeviceNotFound(id) => "device not found: "@ + id.0@,
            ForgeHxError::BackendUnavailable(m) => "backend unavailable: "@ + m@,
            ForgeHxError::BackendProtocol(m) => "backend protocol error: "@ + m@,
            ForgeHxError::AmbiguousDevice(m) => "ambiguous backend device mapping: "@ + m@,
            ForgeHxError::Permission(m) => "hardware access denied: "@ + m@,
            ForgeHxError::AudioUnavailable(m) => "audio integration unavailable: "@ + m@,
            ForgeHxError::Io(m) => "I/O error: "@ + m@,
            ForgeHxError::ProtocolVersion { expected, got } => "protocol version mismatch: expected "@
                + dec_str(*expected as nat) + ", got "@ + dec_str(*got as nat),
        }
    }

    pub fn message(&self) -> (r: String)
        ensures
            r@ == self.text(),
    {
        let text = match self {
            ForgeHxError::UnsupportedSchema(v) => concat(
                &str_chars("unsupported profile schema "),
                &fmt_dec(*v as u64),
            ),
            ForgeHxError::InvalidProfile(m) => concat(&str_chars("invalid profile: "), &str_chars(m.as_str())),
            ForgeHxError::Unsupported(c) => concat(&str_chars("unsupported capability: "), &str_chars(c.name())),
            ForgeHxError::DeviceNotFound(id) => concat(&str_chars("device not found: "), &str_chars(id.0.as_str())),
            ForgeHxError::BackendUnavailable(m) => concat(&str_chars("backend unavailable: "), &str_chars(m.as_str())),
            ForgeHxError::BackendProtocol(m) => concat(&str_chars("backend protocol error: "), &str_chars(m.as_str())),
            ForgeHxError::AmbiguousDevice(m) => concat(
                &str_chars("ambiguous backend device mapping: "),
                &str_chars(m.as_str()),
            ),
            ForgeHxError::Permission(m) => concat(&str_chars("hardware access denied: "), &str_chars(m.as_str())),
            ForgeHxError::AudioUnavailable(m) => concat(
                &str_chars("audio integration unavailable: "),
                &str_chars(m.as_str()),
            ),
            ForgeHxError::Io(m) => concat(&str_chars("I/O error: "), &str_chars(m.as_str())),
            ForgeHxError::ProtocolVersion { expected, got } => concat(
                &concat(
                    &concat(&str_chars("protocol version mismatch: expected "), &fmt_dec(*expected as u64)),
                    &str_chars(", got "),
                ),
                &fmt_dec(*got as u64),
            ),
        };
        string_from(&text)
    }
}

/// Why a DPI configuration is refused, by the first rule it breaks: 1 to
/// 8 stages, an active stage among them, every stage within 100..=30000.
pub open spec fn dpi_error(stages: Seq<u16>, active: nat) -> Option<Seq<char>> {
    if stages.len() == 0 || stages.len() > 8 {
        Some("DPI must contain 1 to 8 stages"@)
    } else if active >= stages.len() {
        Some("active DPI stage is out of range"@)
    } else if exists|i: int| 0 <= i < stages.len() && !(100 <= #[trigger] stages[i] <= 30000) {
        Some("DPI stages must be 100..=30000"@)
    } else {
        None
    }
}

/// Checks a DPI configuration; the message says which rule failed first.
pub fn validate_dpi(dpi: &DpiConfig) -> (r: Result<(), ForgeHxError>)
    ensures
        match dpi_error(dpi.stages@, dpi.active_stage as nat) {
            None => r is Ok,
            Some(m) => r matches Err(ForgeHxError::InvalidProfile(t)) && t@ == m,
        },
{
    if dpi.stages.len() == 0 || dpi.stages.len() > 8 {
        return Err(ForgeHxError::InvalidProfile(owned("DPI must contain 1 to 8 stages")));
    }
    if dpi.active_stage >= dpi.stages.len() {
        return Err(ForgeHxError::InvalidProfile(owned("active DPI stage is out of range")));
    }
    let mut i: usize = 0;
    while i < dpi.stages.len()
        invariant
            i <= dpi.stages@.len(),
            1 <= dpi.stages@.len() <= 8,
            dpi.active_stage < dpi.stages@.len(),
            forall|j: int| 0 <= j < i ==> 100 <= #[trigger] dpi.stages@[j] <= 30000,
        decreases dpi.stages@.len() - i,
    {
        if dpi.stages[i] < 100 || dpi.stages[i] > 30000 {
            assert(!(100 <= dpi.stages@[i as int] <= 30000));
            return Err(ForgeHxError::InvalidProfile(owned("DPI stages must be 100..=30000")));
        }
        i = i + 1;
    }
    Ok(())
}

/// Whether a profile needs migrating: the current schema does not, version 1
/// does, any other version cannot be read.
pub fn migration_needed(schema_version: u32) -> (r: Result<bool, ForgeHxError>)
    ensures
        schema_version == PROFILE_SCHEMA_VERSION ==> r == Ok::<bool, ForgeHxError>(false),
        schema_version == 1 ==> r == Ok::<bool, ForgeHxError>(true),
        schema_version != PROFILE_SCHEMA_VERSION && schema_version != 1 ==> r == Err::<
            bool,
            ForgeHxError,
        >(ForgeHxError::UnsupportedSchema(schema_version)),
{
    if schema_version == PROFILE_SCHEMA_VERSION {
        Ok(false)
    } else if schema_version == 1 {
        Ok(true)
    } else {
        Err(ForgeHxError::UnsupportedSchema(schema_version))
    }
}

fn copy_bindings(v: &Vec<KeyBinding>) -> (r: Vec<KeyBinding>)
    ensures
        r@.len() == v@.len(),
        forall|i: int| 0 <= i < v@.len() ==> (#[trigger] r@[i]).key@ == v@[i].key@ && r@[i].action@ == v@[i].action@,
{
    let mut out: Vec<KeyBinding> = Vec::new();
    let mut i: usize = 0;
    while i < v.len()
        invariant
            i <= v@.len(),
            out@.len() == i,
            forall|j: int| 0 <= j < i ==> (#[trigger] out@[j]).key@ == v@[j].key@ && out@[j].action@ == v@[j].action@,
        decreases v@.len() - i,
    {
        out.push(KeyBinding { key: copy_string(&v[i].key), action: copy_string(&v[i].action) });
        i = i + 1;
    }
    out
}

fn copy_stages(v: &Vec<u16>) -> (r: Vec<u16>)
    ensures
        r@ == v@,
{
    let mut out: Vec<u16> = Vec::new();
    let mut i: usize = 0;
    while i < v.len()
        invariant
            i <= v@.len(),
            out@ == v@.take(i as int),
        decreases v@.len() - i,
    {
        out.push(v[i]);
        assert(v@.take(i as int + 1) == v@.take(i as int).push(v@[i as int]));
        i = i + 1;
    }
    assert(v@.take(v@.len() as int) == v@);
    out
}

/// The mouse settings a version-1 profile gets: its own where it has them;
/// else, where it has old DPI settings or bindings, a mouse built from
/// those (no DPI stages where it had none), with no report rate, active
/// profile or lift-off distance; else none.
pub fn migrated_mouse(mouse: Option<MouseConfig>, dpi: &Option<DpiConfig>, bindings: &Vec<KeyBinding>) -> (r:
    Option<MouseConfig>)
    ensures
        mouse is Some ==> r == mouse,
        mouse is None && dpi is None && bindings@.len() == 0 ==> r is None,
        mouse is None && (dpi is Some || bindings@.len() > 0) ==> (r matches Some(m) && {
            &&& m.dpi.stages@ == (match dpi {
                Some(d) => d.stages@,
                None => Seq::empty(),
            })
            &&& m.dpi.active_stage == (match dpi {
                Some(d) => d.active_stage,
                None => 0,
            })
            &&& m.report_rate_hz is None
            &&& m.active_profile is None
            &&& m.lift_off_distance_mm is None
            &&& m.button_assignments@.len() == bindings@.len()
            &&& forall|i: int|
                0 <= i < bindings@.len() ==> (#[trigger] m.button_assignments@[i]).key@ == bindings@[i].key@
                    && m.button_assignments@[i].action@ == bindings@[i].action@
        }),
{
    if mouse.is_some() {
        return mouse;
    }
    if dpi.is_none() && bindings.len() == 0 {
        return None;
    }
    let dpi_config = match dpi {
        Some(d) => DpiConfig { stages: copy_stages(&d.stages), active_stage: d.active_stage },
        None => DpiConfig { stages: Vec::new(), active_stage: 0 },
    };
    Some(
        MouseConfig {
            dpi: dpi_config,
            report_rate_hz: None,
            active_profile: None,
            button_assignments: copy_bindings(bindings),
            lift_off_distance_mm: None,
        },
    )
}

/// The report rates a profile may ask a mouse for.
pub open spec fn known_rate(hz: u16) -> bool {
    hz == 125 || hz == 250 || hz == 500 || hz == 1000 || hz == 2000 || hz == 4000 || hz == 8000
}

/// Why a profile's name and device settings are refused, by the first rule
/// they break: a name that is not blank and is no path, lighting brightness
/// and speed up to 100, valid DPI settings, a known mouse report rate.
pub open spec fn settings_error(
    name: Seq<char>,
    lighting: Option<LightingConfig>,
    dpi: Option<DpiConfig>,
    mouse: Option<MouseConfig>,
) -> Option<Seq<char>> {
    if crate::text::trim(name).len() == 0 {
        Some("profile name cannot be empty"@)
    } else if name.contains('/') || name.contains('\\') || name == "."@ || name == ".."@ {
        Some("profile name cannot contain path separators"@)
    } else if lighting matches Some(l) && (l.brightness > 100 || l.speed > 100) {
        Some("lighting brightness and speed must be between 0 and 100"@)
    } else if dpi matches Some(d) && dpi_error(d.stages@, d.active_stage as nat) is Some {
        dpi_error(dpi->0.stages@, dpi->0.active_stage as nat)
    } else if mouse matches Some(m) && dpi_error(m.dpi.stages@, m.dpi.active_stage as nat) is Some {
        dpi_error(mouse->0.dpi.stages@, mouse->0.dpi.active_stage as nat)
    } else if mouse matches Some(m) && m.report_rate_hz matches Some(hz) && !known_rate(hz) {
        Some("unsupported mouse report rate"@)
    } else {
        None
    }
}

fn has_char_in(s: &Vec<char>, c: char) -> (r: bool)
    ensures
        r == s@.contains(c),
{
    let mut i: usize = 0;
    while i < s.len()
        invariant
            i <= s@.len(),
            forall|j: int| 0 <= j < i ==> s@[j] != c,
        decreases s@.len() - i,
    {
        if s[i] == c {
            assert(s@[i as int] == c);
            return true;
        }
        i = i + 1;
    }
    false
}

/// The checks of a profile that come before its audio settings: the schema
/// version, then `settings_error`. Volumes and EQ bands are checked after.
pub fn validate_profile_settings(
    schema_version: u32,
    name: &str,
    lighting: &Option<LightingConfig>,
    dpi: &Option<DpiConfig>,
    mouse: &Option<MouseConfig>,
) -> (r: Result<(), ForgeHxError>)
    ensures
        schema_version != PROFILE_SCHEMA_VERSION ==> r == Err::<(), ForgeHxError>(
            ForgeHxError::UnsupportedSchema(schema_version),
        ),
        schema_version == PROFILE_SCHEMA_VERSION ==> match settings_error(name@, *lighting, *dpi, *mouse) {
            None => r is Ok,
            Some(m) => r matches Err(ForgeHxError::InvalidProfile(t)) && t@ == m,
        },
{
    if schema_version != PROFILE_SCHEMA_VERSION {
        return Err(ForgeHxError::UnsupportedSchema(schema_version));
    }
    let chars = str_chars(name);
    if crate::text::trim_ws(&chars).len() == 0 {
        return Err(ForgeHxError::InvalidProfile(owned("profile name cannot be empty")));
    }
    proof {
        reveal_strlit(".");
        reveal_strlit("..");
    }
    if has_char_in(&chars, '/') || has_char_in(&chars, '\\') || crate::text::chars_eq(&chars, &str_chars("."))
        || crate::text::chars_eq(&chars, &str_chars("..")) {
        return Err(ForgeHxError::InvalidProfile(owned("profile name cannot contain path separators")));
    }
    if let Some(l) = lighting {
        if l.brightness > 100 || l.speed > 100 {
            return Err(
                ForgeHxError::InvalidProfile(
                    owned("lighting brightness and speed must be between 0 and 100"),
                ),
            );
        }
    }
    if let Some(d) = dpi {
        match validate_dpi(d) {
            Ok(()) => {},
            Err(e) => return Err(e),
        }
    }
    if let Some(m) = mouse {
        match validate_dpi(&m.dpi) {
            Ok(()) => {},
            Err(e) => return Err(e),
        }
        if let Some(hz) = m.report_rate_hz {
            if !(hz == 125 || hz == 250 || hz == 500 || hz == 1000 || hz == 2000 || hz == 4000
                || hz == 8000) {
                return Err(ForgeHxError::InvalidProfile(owned("unsupported mouse report rate")));
            }
        }
    }
    Ok(())
}

} // verus!
