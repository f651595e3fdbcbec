//! Choosing the backend that owns a capability, and matching a device to the
//! entries an external backend lists.
use crate::model::{BackendHealth, BackendKind, Capability, CapabilityOwner, DeviceInfo, OwnerView};
use crate::text::{
    alnum_lower, chars_eq, concat, contains, contains_sub, fmt_hex, hex_str, lowercase,
    normalize_alnum, opt_view, str_chars, string_from, to_lowercase,
};
use vstd::prelude::*;

verus! {

/// Errors of the compatibility backends.
#[derive(Debug)]
pub enum BackendError {
    Unavailable(String),
    Protocol(String),
    Ambiguous(String),
    Invalid(String),
    Io(String),
}

impl BackendError {
    /// The text the error reads as.
    pub open spec fn text(&self) -> Seq<char> {
        match self {
            BackendError::Unavailable(m) => "backend unavailable: "@ + m@,
            BackendError::Protocol(m) => "backend protocol error: "@ + m@,
            BackendError::Ambiguous(m) => "ambiguous backend device match: "@ + m@,
            BackendError::Invalid(m) => "invalid backend request: "@ + m@,
            BackendError::Io(m) => "I/O error: "@ + m@,
        }
    }

    /// The error as text.
    pub fn message(&self) -> (r: String)
        ensures
            r@ == self.text(),
    {
        let (head, m) = match self {
            BackendError::Unavailable(m) => ("backend unavailable: ", m),
            BackendError::Protocol(m) => ("backend protocol error: ", m),
            BackendError::Ambiguous(m) => ("ambiguous backend device match: ", m),
            BackendError::Invalid(m) => ("invalid backend request: ", m),
            BackendError::Io(m) => ("I/O error: ", m),
        };
        string_from(&concat(&str_chars(head), &str_chars(m.as_str())))
    }
}

/// A capability owner offered by a backend, with the backend's health.
#[derive(Debug, Clone)]
pub struct BackendCandidate {
    pub owner: CapabilityOwner,
    pub health: BackendHealth,
}

// ------------------------------------------------------------ selection

/// Rank of a backend: native first, diagnostics last.
pub open spec fn priority_of(kind: BackendKind) -> nat {
    match kind {
        BackendKind::ForgeHxNative => 0,
        BackendKind::ForgeHxDsp => 1,
        BackendKind::LinuxStandard => 2,
        BackendKind::OpenRgb | BackendKind::Ratbag => 3,
        BackendKind::Diagnostic => 4,
    }
}

fn priority(kind: BackendKind) -> (r: u8)
    ensures
        r == priority_of(kind),
{
    match kind {
        BackendKind::ForgeHxNative => 0,
        BackendKind::ForgeHxDsp => 1,
        BackendKind::LinuxStandard => 2,
        BackendKind::OpenRgb | BackendKind::Ratbag => 3,
        BackendKind::Diagnostic => 4,
    }
}

/// The order candidates are ranked by: backend priority, then writable
/// before read-only, then verified before unverified.
pub open spec fn owner_key(o: OwnerView) -> nat {
    priority_of(o.backend) * 4 + (if o.writable {
        0nat
    } else {
        2nat
    }) + (if o.verified {
        0nat
    } else {
        1nat
    })
}

fn key_of(o: &CapabilityOwner) -> (r: u8)
    ensures
        r == owner_key(o@),
{
    priority(o.backend) * 4 + (if o.writable {
        0
    } else {
        2
    }) + (if o.verified {
        0
    } else {
        1
    })
}

pub open spec fn owner_views(s: Seq<CapabilityOwner>) -> Seq<OwnerView> {
    s.map_values(|o: CapabilityOwner| o@)
}

/// Some candidate offers `cap`.
pub open spec fn offers(s: Seq<OwnerView>, cap: Capability) -> bool {
    exists|i: int| 0 <= i < s.len() && #[trigger] s[i].capability == cap
}

/// `s[i]` is the owner chosen for `cap`: the first of the best-ranked
/// candidates for it.
pub open spec fn selects(s: Seq<OwnerView>, cap: Capability, i: int) -> bool {
    &&& 0 <= i < s.len()
    &&& s[i].capability == cap
    &&& forall|j: int|
        0 <= j < s.len() && #[trigger] s[j].capability == cap ==> owner_key(s[i]) <= owner_key(s[j])
    &&& forall|j: int|
        0 <= j < i && #[trigger] s[j].capability == cap ==> owner_key(s[i]) < owner_key(s[j])
}

/// At most one candidate is chosen.
pub proof fn lemma_selection_unique(s: Seq<OwnerView>, cap: Capability, i: int, k: int)
    requires
        selects(s, cap, i),
        selects(s, cap, k),
    ensures
        i == k,
{
    if i < k {
        assert(s[i].capability == cap);
    } else if k < i {
        assert(s[k].capability == cap);
    }
}

/// The owner for `capability`: among the candidates for it, the one with
/// the best backend priority, preferring writable and then verified ones;
/// of equals, the first.
pub fn select_owner(capability: Capability, candidates: &[CapabilityOwner]) -> (r: Option<
    CapabilityOwner,
>)
    ensures
        r is None <==> !offers(owner_views(candidates@), capability),
        r matches Some(o) ==> exists|i: int|
            selects(owner_views(candidates@), capability, i) && o@ == #[trigger] owner_views(
                candidates@,
            )[i],
{
    let ghost vs = owner_views(candidates@);
    let mut best: Option<usize> = None;
    let mut best_key: u8 = 0;
    let mut i: usize = 0;
    while i < candidates.len()
        invariant
            vs == owner_views(candidates@),
            vs.len() == candidates@.len(),
            i <= vs.len(),
            best is None <==> forall|j: int| 0 <= j < i ==> #[trigger] vs[j].capability != capability,
            best matches Some(b) ==> {
                &&& b < i
                &&& vs[b as int].capability == capability
                &&& best_key == owner_key(vs[b as int])
                &&& forall|j: int|
                    0 <= j < i && #[trigger] vs[j].capability == capability ==> best_key
                        <= owner_key(vs[j])
                &&& forall|j: int|
                    0 <= j < b && #[trigger] vs[j].capability == capability ==> best_key
                        < owner_key(vs[j])
            },
        decreases vs.len() - i,
    {
        assert(vs[i as int] == candidates@[i as int]@);
        if candidates[i].capability == capability {
            let k = key_of(&candidates[i]);
            let replace = match best {
                None => true,
                Some(_) => k < best_key,
            };
            if replace {
                best = Some(i);
                best_key = k;
            }
        }
        i = i + 1;
    }
    match best {
        Some(b) => {
            let o = candidates[b].duplicate();
            assert(vs[b as int] == candidates@[b as int]@);
            assert(selects(vs, capability, b as int));
            Some(o)
        },
        None => {
            assert(!offers(vs, capability));
            None
        },
    }
}

/// How the owner of a capability is chosen between two of its candidates,
/// `s[i]` and `s[j]`. Backends rank ForgeHX Native, then the input DSP, then
/// Linux-standard interfaces, then OpenRGB and ratbagd (equal), then
/// diagnostics; a better-ranked backend wins whatever the writability and
/// verification. Between equally ranked backends a writable candidate beats a
/// read-only one, then a verified one beats an unverified one, and of two
/// otherwise equal candidates the earlier is kept.
pub proof fn law_backend_priority(s: Seq<OwnerView>, cap: Capability, i: int, j: int)
    requires
        0 <= i < s.len(),
        0 <= j < s.len(),
        s[i].capability == cap,
        s[j].capability == cap,
    ensures
        ({
            let a = s[i].backend;
            let b = s[j].backend;
            let ranked_before = (a is ForgeHxNative && !(b is ForgeHxNative)) || (a is ForgeHxDsp && !(
            b is ForgeHxNative || b is ForgeHxDsp)) || (a is LinuxStandard && (b is OpenRgb
                || b is Ratbag || b is Diagnostic)) || ((a is OpenRgb || a is Ratbag) && b is Diagnostic);
            let same_rank = a == b || (a is OpenRgb && b is Ratbag) || (a is Ratbag && b is OpenRgb);
            &&& ranked_before ==> !selects(s, cap, j)
            &&& same_rank && s[i].writable && !s[j].writable ==> !selects(s, cap, j)
            &&& same_rank && s[i].writable == s[j].writable && s[i].verified && !s[j].verified
                ==> !selects(s, cap, j)
            &&& same_rank && s[i].writable == s[j].writable && s[i].verified == s[j].verified && i < j
                ==> !selects(s, cap, j)
        }),
{
}

/// The owners of the candidates whose backend is ready, in order.
pub open spec fn ready_views(c: Seq<BackendCandidate>) -> Seq<OwnerView>
    decreases c.len(),
{
    if c.len() == 0 {
        Seq::empty()
    } else if c.last().health is Ready {
        ready_views(c.drop_last()).push(c.last().owner@)
    } else {
        ready_views(c.drop_last())
    }
}

/// Only ready backends take part in owner selection: a candidate whose
/// health is anything but `Ready` can be left out without changing what is
/// selected from, and where every candidate is ready all of them take part,
/// in order.
pub proof fn law_only_ready_candidates_count(c: Seq<BackendCandidate>, m: int)
    ensures
        0 <= m < c.len() && !(c[m].health is Ready) ==> ready_views(c) == ready_views(c.remove(m)),
        (forall|k: int| 0 <= k < c.len() ==> (#[trigger] c[k]).health is Ready) ==> ready_views(c)
            == owner_views(c.map_values(|b: BackendCandidate| b.owner)),
    decreases c.len(),
{
    if c.len() > 0 {
        let t = c.drop_last();
        law_only_ready_candidates_count(t, m);
        if 0 <= m < c.len() && !(c[m].health is Ready) {
            if m == c.len() - 1 {
                assert(c.remove(m) =~= t);
            } else {
                assert(c.remove(m).drop_last() =~= t.remove(m));
                assert(c.remove(m).last() == c.last());
                assert(t[m] == c[m]);
            }
        }
        if forall|k: int| 0 <= k < c.len() ==> (#[trigger] c[k]).health is Ready {
            assert forall|k: int| 0 <= k < t.len() implies (#[trigger] t[k]).health is Ready by {
                assert(t[k] == c[k]);
            }
            assert(c[c.len() - 1] == c.last());
            assert(owner_views(c.map_values(|b: BackendCandidate| b.owner)) =~= owner_views(
                t.map_values(|b: BackendCandidate| b.owner),
            ).push(c.last().owner@));
        }
    }
}

/// `select_owner` among the candidates whose backend is ready.
pub fn select_owner_with_health(capability: Capability, candidates: &[BackendCandidate]) -> (r:
    Option<CapabilityOwner>)
    ensures
        r is None <==> !offers(ready_views(candidates@), capability),
        r matches Some(o) ==> exists|i: int|
            selects(ready_views(candidates@), capability, i) && o@ == #[trigger] ready_views(
                candidates@,
            )[i],
{
    let mut ready: Vec<CapabilityOwner> = Vec::new();
    let mut i: usize = 0;
    while i < candidates.len()
        invariant
            i <= candidates@.len(),
            owner_views(ready@) == ready_views(candidates@.take(i as int)),
        decreases candidates@.len() - i,
    {
        let c = &candidates[i];
        proof {
            let t = candidates@.take(i as int + 1);
            assert(t.drop_last() == candidates@.take(i as int));
            assert(t.last() == candidates@[i as int]);
        }
        if c.health.is_ready() {
            let o = c.owner.duplicate();
            let ghost before = ready@;
            ready.push(o);
            assert(owner_views(ready@) =~= owner_views(before).push(o@));
        }
        i = i + 1;
    }
    assert(candidates@.take(candidates@.len() as int) == candidates@);
    select_owner(capability, &ready)
}

// ------------------------------------------------------------ matching

/// A device as an external backend lists it.
#[derive(Debug, Clone)]
pub struct ExternalIdentity {
    pub id: String,
    pub name: String,
    pub vendor: Option<String>,
    pub serial: Option<String>,
    pub location: Option<String>,
    pub vendor_id: Option<u16>,
    pub product_id: Option<u16>,
}

/// Why no external entry was chosen.
#[derive(Debug, Clone, Copy, PartialEq, Eq, Structural)]
pub enum MatchError {
    NoMatch,
    Ambiguous,
}

impl MatchError {
    /// What the error says.
    pub open spec fn message_text(&self) -> Seq<char> {
        match self {
            MatchError::NoMatch => "no deterministic external-device match"@,
            MatchError::Ambiguous => "ambiguous external-device match"@,
        }
    }

    pub fn message(&self) -> (r: &'static str)
        ensures
            r@ == self.message_text(),
    {
        match self {
            MatchError::NoMatch => "no deterministic external-device match",
            MatchError::Ambiguous => "ambiguous external-device match",
        }
    }
}

/// Two strings that name the same thing after normalising: both non-empty
/// and one contains the other.
pub open spec fn loosely_equal(a: Seq<char>, b: Seq<char>) -> bool {
    a.len() > 0 && b.len() > 0 && (a == b || contains(a, b) || contains(b, a))
}

/// `vvvv:pppp` in lower-case hexadecimal.
pub open spec fn usb_id_text(vendor_id: u16, product_id: u16) -> Seq<char> {
    hex_str(vendor_id as nat, 4) + ":"@ + hex_str(product_id as nat, 4)
}

pub open spec fn serial_points(device: DeviceInfo, e: ExternalIdentity) -> int {
    match (opt_view(device.serial), opt_view(e.serial)) {
        (Some(a), Some(b)) => if a.len() > 0 && lowercase(a) == lowercase(b) {
            120
        } else {
            0
        },
        _ => 0,
    }
}

pub open spec fn id_points(device: DeviceInfo, e: ExternalIdentity) -> int {
    if e.vendor_id == Some(device.vendor_id) && e.product_id == Some(device.product_id)
        && device.vendor_id != 0 {
        100
    } else {
        0
    }
}

pub open spec fn location_points(device: DeviceInfo, e: ExternalIdentity) -> int {
    match opt_view(e.location) {
        Some(l) => if device.vendor_id != 0 && contains(
            lowercase(l),
            usb_id_text(device.vendor_id, device.product_id),
        ) {
            80
        } else {
            0
        },
        None => 0,
    }
}

pub open spec fn vendor_points(device: DeviceInfo, e: ExternalIdentity) -> int {
    match (opt_view(device.manufacturer), opt_view(e.vendor)) {
        (Some(m), Some(v)) => {
            let a = alnum_lower(m);
            let b = alnum_lower(v);
            if a.len() > 0 && b.len() > 0 && (contains(a, b) || contains(b, a)) {
                25
            } else {
                0
            }
        },
        _ => 0,
    }
}

pub open spec fn name_points(device: DeviceInfo, e: ExternalIdentity) -> int {
    if loosely_equal(alnum_lower(device.name@), alnum_lower(e.name@)) {
        50
    } else {
        0
    }
}

/// How strongly an external entry looks like the device: serial 120, USB
/// ids 100, USB location 80, vendor 25, name 50.
pub open spec fn match_score(device: DeviceInfo, e: ExternalIdentity) -> int {
    serial_points(device, e) + id_points(device, e) + location_points(device, e) + vendor_points(
        device,
        e,
    ) + name_points(device, e)
}

fn serial_score(device: &DeviceInfo, e: &ExternalIdentity) -> (r: i32)
    ensures
        r == serial_points(*device, *e),
{
    match (&device.serial, &e.serial) {
        (Some(a), Some(b)) => {
            let a = str_chars(a.as_str());
            let b = str_chars(b.as_str());
            if a.len() > 0 && chars_eq(&to_lowercase(&a), &to_lowercase(&b)) {
                120
            } else {
                0
            }
        },
        _ => 0,
    }
}

fn location_score(device: &DeviceInfo, e: &ExternalIdentity) -> (r: i32)
    ensures
        r == location_points(*device, *e),
{
    match &e.location {
        Some(l) => {
            if device.vendor_id == 0 {
                return 0;
            }
            proof {
                reveal_strlit(":");
            }
            let needle = concat(
                &concat(&fmt_hex(device.vendor_id as u128, 4), &str_chars(":")),
                &fmt_hex(device.product_id as u128, 4),
            );
            if contains_sub(&to_lowercase(&str_chars(l.as_str())), &needle) {
                80
            } else {
                0
            }
        },
        None => 0,
    }
}

fn vendor_score(device: &DeviceInfo, e: &ExternalIdentity) -> (r: i32)
    ensures
        r == vendor_points(*device, *e),
{
    match (&device.manufacturer, &e.vendor) {
        (Some(m), Some(v)) => {
            let a = normalize_alnum(&str_chars(m.as_str()));
            let b = normalize_alnum(&str_chars(v.as_str()));
            if a.len() > 0 && b.len() > 0 && (contains_sub(&a, &b) || contains_sub(&b, &a)) {
                25
            } else {
                0
            }
        },
        _ => 0,
    }
}

fn name_score(device: &DeviceInfo, e: &ExternalIdentity) -> (r: i32)
    ensures
        r == name_points(*device, *e),
{
    let a = normalize_alnum(&str_chars(device.name.as_str()));
    let b = normalize_alnum(&str_chars(e.name.as_str()));
    if a.len() > 0 && b.len() > 0 && (chars_eq(&a, &b) || contains_sub(&a, &b) || contains_sub(
        &b,
        &a,
    )) {
        50
    } else {
        0
    }
}

/// The score of one external entry for the device.
pub fn score(device: &DeviceInfo, e: &ExternalIdentity) -> (r: i32)
    ensures
        r == match_score(*device, *e),
{
    let ids = if e.vendor_id == Some(device.vendor_id) && e.product_id == Some(device.product_id)
        && device.vendor_id != 0 {
        100
    } else {
        0
    };
    serial_score(device, e) + ids + location_score(device, e) + vendor_score(device, e)
        + name_score(device, e)
}

/// What each piece of an external entry adds to its score. Taking the
/// serial away lowers the score by 120 exactly when both serials are present,
/// the device's is not empty and they are equal ignoring ASCII case. Taking
/// the USB ids away lowers it by 100 exactly when both the vendor and the
/// product id equal the device's and the vendor id is not 0. Taking the
/// location away lowers it by 80 exactly when the device's vendor id is not 0
/// and the lower-cased location contains the device's `vvvv:pppp` in
/// lower-case hexadecimal. Taking the vendor away lowers it by 25 exactly when
/// the device's manufacturer and the vendor, each reduced to lower-case ASCII
/// letters and digits, are not empty and one contains the other. What is left,
/// an entry with a name alone, scores 50 when the two names, reduced the same
/// way, are not empty and equal or one contains the other, and nothing otherwise.
pub proof fn law_match_score_points(device: DeviceInfo, e: ExternalIdentity)
    ensures
        match_score(device, e) == match_score(device, (ExternalIdentity { serial: None, ..e })) + (
        if device.serial is Some && e.serial is Some && device.serial->0@.len() > 0 && lowercase(
            device.serial->0@,
        ) == lowercase(e.serial->0@) {
            120int
        } else {
            0int
        }),
        match_score(device, e) == match_score(
            device,
            (ExternalIdentity { vendor_id: None, product_id: None, ..e }),
        ) + (if e.vendor_id == Some(device.vendor_id) && e.product_id == Some(device.product_id)
            && device.vendor_id != 0 {
            100int
        } else {
            0int
        }),
        match_score(device, e) == match_score(device, (ExternalIdentity { location: None, ..e })) + (
        if e.location is Some && device.vendor_id != 0 && contains(
            lowercase(e.location->0@),
            hex_str(device.vendor_id as nat, 4) + ":"@ + hex_str(device.product_id as nat, 4),
        ) {
            80int
        } else {
            0int
        }),
        match_score(device, e) == match_score(device, (ExternalIdentity { vendor: None, ..e })) + (
        if device.manufacturer is Some && e.vendor is Some && alnum_lower(device.manufacturer->0@).len()
            > 0 && alnum_lower(e.vendor->0@).len() > 0 && (contains(
            alnum_lower(device.manufacturer->0@),
            alnum_lower(e.vendor->0@),
        ) || contains(alnum_lower(e.vendor->0@), alnum_lower(device.manufacturer->0@))) {
            25int
        } else {
            0int
        }),
        e.serial is None && e.vendor_id is None && e.product_id is None && e.location is None
            && e.vendor is None ==> match_score(device, e) == (if alnum_lower(device.name@).len() > 0
            && alnum_lower(e.name@).len() > 0 && (alnum_lower(device.name@) == alnum_lower(e.name@)
            || contains(alnum_lower(device.name@), alnum_lower(e.name@)) || contains(
            alnum_lower(e.name@),
            alnum_lower(device.name@),
        )) {
            50int
        } else {
            0int
        }),
{
}

/// The match rule: an entry is the device exactly when it scores at least 50
/// and strictly more than every other entry; there is a candidate at all
/// exactly when some entry scores at least 50.
pub proof fn law_match_rule(device: DeviceInfo, ext: Seq<ExternalIdentity>)
    ensures
        forall|i: int|
            #[trigger] unique_best(device, ext, i) <==> (0 <= i < ext.len() && match_score(device, ext[i])
                >= 50 && forall|j: int|
                0 <= j < ext.len() && j != i ==> match_score(device, ext[j]) < match_score(device, ext[i])),
        any_candidate(device, ext) <==> exists|i: int|
            0 <= i < ext.len() && match_score(device, #[trigger] ext[i]) >= 50,
{
}

/// Some entry scores at least 50.
pub open spec fn any_candidate(device: DeviceInfo, ext: Seq<ExternalIdentity>) -> bool {
    exists|i: int| 0 <= i < ext.len() && match_score(device, #[trigger] ext[i]) >= 50
}

/// `ext[i]` scores at least 50 and strictly more than every other entry.
pub open spec fn unique_best(device: DeviceInfo, ext: Seq<ExternalIdentity>, i: int) -> bool {
    &&& 0 <= i < ext.len()
    &&& match_score(device, ext[i]) >= 50
    &&& forall|j: int|
        0 <= j < ext.len() && j != i ==> match_score(device, #[trigger] ext[j]) < match_score(
            device,
            ext[i],
        )
}

/// At most one entry is the unique best.
pub proof fn lemma_unique_best_unique(device: DeviceInfo, ext: Seq<ExternalIdentity>, i: int, j: int)
    requires
        unique_best(device, ext, i),
        unique_best(device, ext, j),
    ensures
        i == j,
{
    if i != j {
        assert(match_score(device, ext[j]) < match_score(device, ext[i]));
        assert(match_score(device, ext[i]) < match_score(device, ext[j]));
    }
}

/// The external entry that is the device: the one entry with the highest
/// score of at least 50. Without such an entry there is no match; where two
/// share the highest score the match is ambiguous.
pub fn match_external_index(device: &DeviceInfo, external: &[ExternalIdentity]) -> (r: Result<
    usize,
    MatchError,
>)
    ensures
        r is Ok <==> exists|i: int| unique_best(*device, external@, i),
        r matches Ok(i) ==> unique_best(*device, external@, i as int),
        r == Err::<usize, MatchError>(MatchError::NoMatch) <==> !any_candidate(*device, external@),
        r == Err::<usize, MatchError>(MatchError::Ambiguous) <==> (any_candidate(
            *device,
            external@,
        ) && !exists|i: int| unique_best(*device, external@, i)),
{
    let ghost d = *device;
    let ghost ext = external@;
    let mut best: Option<usize> = None;
    let mut best_score: i32 = 0;
    let mut tie = false;
    let mut i: usize = 0;
    while i < external.len()
        invariant
            d == *device,
            ext == external@,
            i <= ext.len(),
            best is None <==> forall|j: int| 0 <= j < i ==> match_score(d, #[trigger] ext[j]) < 50,
            best matches Some(b) ==> {
                &&& b < i
                &&& best_score == match_score(d, ext[b as int])
                &&& best_score >= 50
                &&& forall|j: int| 0 <= j < i ==> match_score(d, #[trigger] ext[j]) <= best_score
                &&& tie ==> exists|j: int|
                    0 <= j < i && j != b && match_score(d, #[trigger] ext[j]) == best_score
                &&& !tie ==> forall|j: int|
                    0 <= j < i && j != b ==> match_score(d, #[trigger] ext[j]) < best_score
            },
        decreases ext.len() - i,
    {
        let s = score(device, &external[i]);
        match best {
            None => {
                if s >= 50 {
                    best = Some(i);
                    best_score = s;
                    tie = false;
                }
            },
            Some(b) => {
                if s > best_score {
                    best = Some(i);
                    best_score = s;
                    tie = false;
                } else if s == best_score {
                    tie = true;
                    assert(match_score(d, ext[i as int]) == best_score);
                }
            },
        }
        i = i + 1;
    }
    match best {
        None => {
            proof {
                if exists|k: int| unique_best(d, ext, k) {
                    let k = choose|k: int| unique_best(d, ext, k);
                    assert(match_score(d, ext[k]) >= 50);
                }
            }
            Err(MatchError::NoMatch)
        },
        Some(b) => {
            if tie {
                proof {
                    assert(match_score(d, ext[b as int]) >= 50);
                    if exists|k: int| unique_best(d, ext, k) {
                        let k = choose|k: int| unique_best(d, ext, k);
                        let j = choose|j: int|
                            0 <= j < i && j != b && match_score(d, #[trigger] ext[j])
                                == best_score;
                        if k == b {
                            assert(match_score(d, ext[j]) < match_score(d, ext[k]));
                        } else {
                            assert(match_score(d, ext[b as int]) < match_score(d, ext[k]));
                            assert(match_score(d, ext[k]) <= best_score);
                        }
                    }
                }
                Err(MatchError::Ambiguous)
            } else {
                assert(unique_best(d, ext, b as int));
                Ok(b)
            }
        },
    }
}

/// The external entry that is the device (see `match_external_index`).
pub fn match_external_device<'a>(device: &DeviceInfo, external: &'a [ExternalIdentity]) -> (r:
    Result<&'a ExternalIdentity, MatchError>)
    ensures
        r is Ok <==> exists|i: int| unique_best(*device, external@, i),
        r matches Ok(e) ==> exists|i: int| unique_best(*device, external@, i) && *e == external@[i],
        r == Err::<&ExternalIdentity, MatchError>(MatchError::NoMatch) <==> !any_candidate(
            *device,
            external@,
        ),
        r == Err::<&ExternalIdentity, MatchError>(MatchError::Ambiguous) <==> (any_candidate(
            *device,
            external@,
        ) && !exists|i: int| unique_best(*device, external@, i)),
{
    match match_external_index(device, external) {
        Ok(i) => Ok(&external[i]),
        Err(e) => Err(e),
    }
}

} // verus!
