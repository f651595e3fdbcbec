//! Device discovery: what the raw HID, USB and power-supply records say,
//! how interfaces are classified and grouped into devices, and what the
//! sysfs attribute files are read as. Reading the system is left to the
//! caller.
use crate::model::{
    sort_dedup, sorted_caps, Capability, ConnectionKind, DeviceClass, DeviceId, DeviceInfo,
    DiagnosticReport,
    DeviceInterface, ForgeHxError, InterfaceSource, SupportLevel, VendorFamily,
};
use crate::order::{
    covers, is_stable_order, key_lt, lemma_key_lt_irreflexive, lemma_key_lt_total,
    lemma_key_lt_transitive, lemma_stably_sorted_same_elements,
    first_index, first_text, is_present, key_view, key_views, lemma_first_index_is,
    stable_sort_by_keys, stably_sorted,
};
use crate::text::{
    alnum_lower, normalize_alnum, chars_eq, concat, contains, contains_sub, copy_opt, copy_string, fmt_hex, has_prefix, hex_str,
    is_alnum, is_ascii_alphanumeric, lowercase, opt_view, owned, parse_bounded, parse_num, str_chars,
    string_from, to_lowercase, trim, trim_ws,
};
use vstd::prelude::*;

verus! {

/// Why enumerating a source failed.
#[derive(Debug, Clone)]
pub enum DeviceError {
    Hid(String),
    Usb(String),
    Power(String),
}

impl DeviceError {
    pub open spec fn text(&self) -> Seq<char> {
        match self {
            DeviceError::Hid(m) => "HID enumeration failed: "@ + m@,
            DeviceError::Usb(m) => "USB enumeration failed: "@ + m@,
            DeviceError::Power(m) => "power metadata enumeration failed: "@ + m@,
        }
    }

    pub fn message(&self) -> (r: String)
        ensures
            r@ == self.text(),
    {
        let (head, m) = match self {
            DeviceError::Hid(m) => ("HID enumeration failed: ", m),
            DeviceError::Usb(m) => ("USB enumeration failed: ", m),
            DeviceError::Power(m) => ("power metadata enumeration failed: ", m),
        };
        string_from(&concat(&str_chars(head), &str_chars(m.as_str())))
    }
}

/// A HID interface as the HID layer lists it.
#[derive(Debug, Clone)]
pub struct HidDescriptor {
    pub path: String,
    pub vendor_id: u16,
    pub product_id: u16,
    pub manufacturer: Option<String>,
    pub product: Option<String>,
    pub serial: Option<String>,
    pub interface_number: i32,
    pub usage_page: u16,
    pub usage: u16,
    pub usb_parent: Option<String>,
}

impl HidDescriptor {
    /// A bare descriptor named `product`, at path `test:vvvv:pppp`.
    pub fn new(vendor_id: u16, product_id: u16, product: String) -> (r: Self)
        ensures
            r.path@ == "test:"@ + hex_str(vendor_id as nat, 4) + ":"@ + hex_str(product_id as nat, 4),
            r.vendor_id == vendor_id,
            r.product_id == product_id,
            r.manufacturer is None,
            opt_view(r.product) == Some(product@),
            r.serial is None,
            r.interface_number == 0,
            r.usage_page == 0,
            r.usage == 0,
            r.usb_parent is None,
    {
        let path = concat(
            &concat(&concat(&str_chars("test:"), &fmt_hex(vendor_id as u128, 4)), &str_chars(":")),
            &fmt_hex(product_id as u128, 4),
        );
        HidDescriptor {
            path: string_from(&path),
            vendor_id,
            product_id,
            manufacturer: None,
            product: Some(product),
            serial: None,
            interface_number: 0,
            usage_page: 0,
            usage: 0,
            usb_parent: None,
        }
    }
}

/// A USB device as sysfs lists it.
#[derive(Debug, Clone)]
pub struct UsbDescriptor {
    pub path: String,
    pub usb_parent: String,
    pub vendor_id: u16,
    pub product_id: u16,
    pub manufacturer: Option<String>,
    pub product: Option<String>,
    pub serial: Option<String>,
    pub class_codes: Vec<u8>,
}

/// A battery as the power-supply class lists it.
#[derive(Debug, Clone)]
pub struct BatteryDescriptor {
    pub path: String,
    pub name: String,
    pub manufacturer: Option<String>,
    pub model_name: Option<String>,
    pub serial: Option<String>,
    pub capacity: Option<u8>,
    pub status: Option<String>,
}

/// Enumerates USB devices under a sysfs root (`/sys/bus/usb/devices`
/// unless another is given).
#[derive(Debug, Default, Clone)]
pub struct SystemUsbBackend {
    pub root: Option<String>,
}

impl SystemUsbBackend {
    pub fn with_root(root: String) -> (r: Self)
        ensures
            opt_view(r.root) == Some(root@),
    {
        SystemUsbBackend { root: Some(root) }
    }
}

/// One interface of a device, whatever layer reported it.
#[derive(Debug, Clone)]
pub struct RawInterface {
    pub source: InterfaceSource,
    pub path: String,
    pub vendor_id: u16,
    pub product_id: u16,
    pub manufacturer: Option<String>,
    pub product: Option<String>,
    pub serial: Option<String>,
    pub interface_number: Option<i32>,
    pub usage_page: Option<u16>,
    pub usage: Option<u16>,
    pub audio_node_id: Option<u32>,
    pub usb_parent: Option<String>,
    pub usb_class_codes: Vec<u8>,
}

pub open spec fn nonzero(v: u16) -> Option<u16> {
    if v != 0 {
        Some(v)
    } else {
        None
    }
}

/// The interface a device reports for a raw record: zero ids are absent.
pub fn interface_from_raw(raw: &RawInterface) -> (r: DeviceInterface)
    ensures
        r.source == raw.source,
        r.path@ == raw.path@,
        r.vendor_id == nonzero(raw.vendor_id),
        r.product_id == nonzero(raw.product_id),
        r.interface_number == raw.interface_number,
        r.usage_page == raw.usage_page,
        r.usage == raw.usage,
        r.audio_node_id == raw.audio_node_id,
        opt_view(r.usb_parent) == opt_view(raw.usb_parent),
{
    DeviceInterface {
        source: raw.source,
        path: copy_string(&raw.path),
        vendor_id: if raw.vendor_id != 0 {
            Some(raw.vendor_id)
        } else {
            None
        },
        product_id: if raw.product_id != 0 {
            Some(raw.product_id)
        } else {
            None
        },
        interface_number: raw.interface_number,
        usage_page: raw.usage_page,
        usage: raw.usage,
        audio_node_id: raw.audio_node_id,
        usb_parent: copy_opt(&raw.usb_parent),
    }
}

/// `r` is the raw record of HID interface `d`.
pub open spec fn is_hid_raw(r: RawInterface, d: HidDescriptor) -> bool {
    &&& r.source == InterfaceSource::Hid
    &&& r.path == d.path
    &&& r.vendor_id == d.vendor_id
    &&& r.product_id == d.product_id
    &&& r.manufacturer == d.manufacturer
    &&& r.product == d.product
    &&& r.serial == d.serial
    &&& r.interface_number == Some(d.interface_number)
    &&& r.usage_page == Some(d.usage_page)
    &&& r.usage == Some(d.usage)
    &&& r.audio_node_id is None
    &&& r.usb_parent == d.usb_parent
    &&& r.usb_class_codes@.len() == 0
}

/// A HID descriptor as a raw interface.
pub fn raw_from_hid(d: HidDescriptor) -> (r: RawInterface)
    ensures
        is_hid_raw(r, d),
{
    RawInterface {
        source: InterfaceSource::Hid,
        path: d.path,
        vendor_id: d.vendor_id,
        product_id: d.product_id,
        manufacturer: d.manufacturer,
        product: d.product,
        serial: d.serial,
        interface_number: Some(d.interface_number),
        usage_page: Some(d.usage_page),
        usage: Some(d.usage),
        audio_node_id: None,
        usb_parent: d.usb_parent,
        usb_class_codes: Vec::new(),
    }
}

/// `r` is the raw record of USB device `d`.
pub open spec fn is_usb_raw(r: RawInterface, d: UsbDescriptor) -> bool {
    &&& r.source == InterfaceSource::Usb
    &&& r.path == d.path
    &&& r.vendor_id == d.vendor_id
    &&& r.product_id == d.product_id
    &&& r.manufacturer == d.manufacturer
    &&& r.product == d.product
    &&& r.serial == d.serial
    &&& r.interface_number is None
    &&& r.usage_page is None
    &&& r.usage is None
    &&& r.audio_node_id is None
    &&& r.usb_parent == Some(d.usb_parent)
    &&& r.usb_class_codes == d.class_codes
}

/// A USB descriptor as a raw interface.
pub fn raw_from_usb(d: UsbDescriptor) -> (r: RawInterface)
    ensures
        is_usb_raw(r, d),
{
    RawInterface {
        source: InterfaceSource::Usb,
        path: d.path,
        vendor_id: d.vendor_id,
        product_id: d.product_id,
        manufacturer: d.manufacturer,
        product: d.product,
        serial: d.serial,
        interface_number: None,
        usage_page: None,
        usage: None,
        audio_node_id: None,
        usb_parent: Some(d.usb_parent),
        usb_class_codes: d.class_codes,
    }
}

// ------------------------------------------------------------ classification

pub open spec fn or_empty(o: Option<String>) -> Seq<char> {
    match o {
        Some(s) => s@,
        None => Seq::empty(),
    }
}

/// Manufacturer and product, in ASCII lower case: what branding is read from.
pub open spec fn branding(raw: RawInterface) -> Seq<char> {
    lowercase(or_empty(raw.manufacturer) + " "@ + or_empty(raw.product))
}

/// A vendor family as plain values.
pub enum FamilyView {
    HyperX,
    Kingston,
    Hp,
    Logitech,
    Corsair,
    Razer,
    SteelSeries,
    Generic(Seq<char>),
    Unknown,
}

pub open spec fn family_view(f: VendorFamily) -> FamilyView {
    match f {
        VendorFamily::HyperX => FamilyView::HyperX,
        VendorFamily::Kingston => FamilyView::Kingston,
        VendorFamily::Hp => FamilyView::Hp,
        VendorFamily::Logitech => FamilyView::Logitech,
        VendorFamily::Corsair => FamilyView::Corsair,
        VendorFamily::Razer => FamilyView::Razer,
        VendorFamily::SteelSeries => FamilyView::SteelSeries,
        VendorFamily::Generic(n) => FamilyView::Generic(n@),
        VendorFamily::Unknown => FamilyView::Unknown,
    }
}

/// The vendor family of an interface: HyperX branding wins; then the USB
/// vendor id; then a vendor named in the branding; then the manufacturer's
/// own name, if it has one.
pub open spec fn family_of(raw: RawInterface) -> FamilyView {
    let b = branding(raw);
    if contains(b, "hyperx"@) {
        FamilyView::HyperX
    } else if raw.vendor_id == 0x0951 {
        FamilyView::Kingston
    } else if raw.vendor_id == 0x03f0 {
        FamilyView::Hp
    } else if raw.vendor_id == 0x046d {
        FamilyView::Logitech
    } else if raw.vendor_id == 0x1b1c {
        FamilyView::Corsair
    } else if raw.vendor_id == 0x1532 {
        FamilyView::Razer
    } else if raw.vendor_id == 0x1038 {
        FamilyView::SteelSeries
    } else if contains(b, "logitech"@) {
        FamilyView::Logitech
    } else if contains(b, "corsair"@) {
        FamilyView::Corsair
    } else if contains(b, "razer"@) {
        FamilyView::Razer
    } else if contains(b, "steelseries"@) {
        FamilyView::SteelSeries
    } else {
        match opt_view(raw.manufacturer) {
            Some(n) => if trim(n).len() > 0 {
                FamilyView::Generic(n)
            } else {
                FamilyView::Unknown
            },
            None => FamilyView::Unknown,
        }
    }
}

fn opt_chars(o: &Option<String>) -> (r: Vec<char>)
    ensures
        r@ == or_empty(*o),
{
    match o {
        Some(s) => str_chars(s.as_str()),
        None => Vec::new(),
    }
}

fn branding_of(raw: &RawInterface) -> (r: Vec<char>)
    ensures
        r@ == branding(*raw),
{
    to_lowercase(&concat(&concat(&opt_chars(&raw.manufacturer), &str_chars(" ")), &opt_chars(&raw.product)))
}

fn has(s: &Vec<char>, lit: &str) -> (r: bool)
    ensures
        r == contains(s@, lit@),
{
    contains_sub(s, &str_chars(lit))
}

pub fn vendor_family(raw: &RawInterface) -> (r: VendorFamily)
    ensures
        family_view(r) == family_of(*raw),
{
    let b = branding_of(raw);
    if has(&b, "hyperx") {
        return VendorFamily::HyperX;
    }
    match raw.vendor_id {
        0x0951 => VendorFamily::Kingston,
        0x03f0 => VendorFamily::Hp,
        0x046d => VendorFamily::Logitech,
        0x1b1c => VendorFamily::Corsair,
        0x1532 => VendorFamily::Razer,
        0x1038 => VendorFamily::SteelSeries,
        _ => {
            if has(&b, "logitech") {
                VendorFamily::Logitech
            } else if has(&b, "corsair") {
                VendorFamily::Corsair
            } else if has(&b, "razer") {
                VendorFamily::Razer
            } else if has(&b, "steelseries") {
                VendorFamily::SteelSeries
            } else {
                match &raw.manufacturer {
                    Some(name) => if trim_ws(&str_chars(name.as_str())).len() > 0 {
                        VendorFamily::Generic(copy_string(name))
                    } else {
                        VendorFamily::Unknown
                    },
                    None => VendorFamily::Unknown,
                }
            }
        },
    }
}

/// The class of an interface: a generic-desktop usage decides first, then
/// words in the branding, then the USB class codes, then the source.
pub open spec fn class_of(raw: RawInterface) -> DeviceClass {
    let t = branding(raw);
    if raw.usage_page == Some(0x01u16) && raw.usage == Some(0x06u16) {
        DeviceClass::Keyboard
    } else if raw.usage_page == Some(0x01u16) && raw.usage == Some(0x02u16) {
        DeviceClass::Mouse
    } else if raw.usage_page == Some(0x01u16) && (raw.usage == Some(0x04u16) || raw.usage == Some(
        0x05u16,
    )) {
        DeviceClass::Controller
    } else if contains(t, "keyboard"@) || contains(t, "alloy"@) {
        DeviceClass::Keyboard
    } else if contains(t, "mouse"@) || contains(t, "pulsefire"@) {
        DeviceClass::Mouse
    } else if contains(t, "headset"@) || contains(t, "cloud"@) {
        DeviceClass::Headset
    } else if contains(t, "microphone"@) || contains(t, "quadcast"@) || contains(t, "solocast"@) {
        DeviceClass::Microphone
    } else if contains(t, "controller"@) || contains(t, "gamepad"@) || contains(t, "clutch"@) {
        DeviceClass::Controller
    } else if contains(t, "webcam"@) || contains(t, "camera"@) || raw.usb_class_codes@.contains(
        0x0eu8,
    ) {
        DeviceClass::Webcam
    } else if contains(t, "mousepad"@) || contains(t, "mouse pad"@) || contains(t, "mat"@) {
        DeviceClass::Mousepad
    } else if contains(t, "monitor"@) || contains(t, "display"@) {
        DeviceClass::Monitor
    } else if raw.usb_class_codes@.contains(0x01u8) {
        DeviceClass::UsbAudio
    } else if raw.source == InterfaceSource::Hid {
        DeviceClass::GenericHid
    } else {
        DeviceClass::Other
    }
}

fn has_code(v: &Vec<u8>, c: u8) -> (r: bool)
    ensures
        r == v@.contains(c),
{
    let mut i: usize = 0;
    while i < v.len()
        invariant
            i <= v@.len(),
            forall|j: int| 0 <= j < i ==> v@[j] != c,
        decreases v@.len() - i,
    {
        if v[i] == c {
            assert(v@[i as int] == c);
            return true;
        }
        i = i + 1;
    }
    false
}

pub fn device_class(raw: &RawInterface) -> (r: DeviceClass)
    ensures
        r == class_of(*raw),
{
    if raw.usage_page == Some(0x01u16) {
        match raw.usage {
            Some(0x06u16) => return DeviceClass::Keyboard,
            Some(0x02u16) => return DeviceClass::Mouse,
            Some(0x04u16) | Some(0x05u16) => return DeviceClass::Controller,
            _ => {},
        }
    }
    let t = branding_of(raw);
    if has(&t, "keyboard") || has(&t, "alloy") {
        return DeviceClass::Keyboard;
    }
    if has(&t, "mouse") || has(&t, "pulsefire") {
        return DeviceClass::Mouse;
    }
    if has(&t, "headset") || has(&t, "cloud") {
        return DeviceClass::Headset;
    }
    if has(&t, "microphone") || has(&t, "quadcast") || has(&t, "solocast") {
        return DeviceClass::Microphone;
    }
    if has(&t, "controller") || has(&t, "gamepad") || has(&t, "clutch") {
        return DeviceClass::Controller;
    }
    if has(&t, "webcam") || has(&t, "camera") || has_code(&raw.usb_class_codes, 0x0e) {
        return DeviceClass::Webcam;
    }
    if has(&t, "mousepad") || has(&t, "mouse pad") || has(&t, "mat") {
        return DeviceClass::Mousepad;
    }
    if has(&t, "monitor") || has(&t, "display") {
        return DeviceClass::Monitor;
    }
    if has_code(&raw.usb_class_codes, 0x01) {
        return DeviceClass::UsbAudio;
    }
    if raw.source == InterfaceSource::Hid {
        DeviceClass::GenericHid
    } else {
        DeviceClass::Other
    }
}

/// The vendor family of an interface: "hyperx" anywhere in the lower-cased
/// manufacturer and product names makes it HyperX; otherwise the USB vendor
/// id decides (0x0951 Kingston, 0x03f0 HP, 0x046d Logitech, 0x1b1c Corsair,
/// 0x1532 Razer, 0x1038 SteelSeries); otherwise the words "logitech",
/// "corsair", "razer", "steelseries" in that order; otherwise the
/// manufacturer's name where it is not blank, else unknown.
pub proof fn law_family_by_branding_and_vendor_id(raw: RawInterface)
    ensures
        ({
            let t = branding(raw);
            let f = family_of(raw);
            let known = raw.vendor_id == 0x0951 || raw.vendor_id == 0x03f0 || raw.vendor_id == 0x046d
                || raw.vendor_id == 0x1b1c || raw.vendor_id == 0x1532 || raw.vendor_id == 0x1038;
            let x = contains(t, "hyperx"@);
            &&& x ==> f == FamilyView::HyperX
            &&& !x && raw.vendor_id == 0x0951 ==> f == FamilyView::Kingston
            &&& !x && raw.vendor_id == 0x03f0 ==> f == FamilyView::Hp
            &&& !x && raw.vendor_id == 0x046d ==> f == FamilyView::Logitech
            &&& !x && raw.vendor_id == 0x1b1c ==> f == FamilyView::Corsair
            &&& !x && raw.vendor_id == 0x1532 ==> f == FamilyView::Razer
            &&& !x && raw.vendor_id == 0x1038 ==> f == FamilyView::SteelSeries
            &&& !x && !known && contains(t, "logitech"@) ==> f == FamilyView::Logitech
            &&& !x && !known && !contains(t, "logitech"@) && contains(t, "corsair"@) ==> f
                == FamilyView::Corsair
            &&& !x && !known && !contains(t, "logitech"@) && !contains(t, "corsair"@) && contains(
                t,
                "razer"@,
            ) ==> f == FamilyView::Razer
            &&& !x && !known && !contains(t, "logitech"@) && !contains(t, "corsair"@) && !contains(
                t,
                "razer"@,
            ) && contains(t, "steelseries"@) ==> f == FamilyView::SteelSeries
            &&& !x && !known && !contains(t, "logitech"@) && !contains(t, "corsair"@) && !contains(
                t,
                "razer"@,
            ) && !contains(t, "steelseries"@) ==> f == (match raw.manufacturer {
                Some(m) => if trim(m@).len() > 0 {
                    FamilyView::Generic(m@)
                } else {
                    FamilyView::Unknown
                },
                None => FamilyView::Unknown,
            })
        }),
{
}

/// How an interface is classified, by the usages and word lists it is
/// judged on. The words are looked for in the manufacturer and product
/// names, joined by a space and put in ASCII lower case. A generic-desktop
/// usage decides first: keyboard (6), mouse (2), joystick or gamepad (4, 5).
/// Then, in order, "keyboard"/"alloy" make a keyboard, "mouse"/"pulsefire" a
/// mouse, "headset"/"cloud" a headset, "microphone"/"quadcast"/"solocast" a
/// microphone, "controller"/"gamepad"/"clutch" a controller,
/// "webcam"/"camera" or USB class 0x0e a webcam, "mousepad"/"mouse pad"/"mat"
/// a mousepad, "monitor"/"display" a monitor; then USB audio class 0x01 is
/// USB audio, and what is left is generic HID for a HID interface, else other.
pub proof fn law_class_by_usage_and_words(raw: RawInterface)
    ensures
        ({
            let t = lowercase(
                (match raw.manufacturer {
                    Some(m) => m@,
                    None => Seq::empty(),
                }) + " "@ + (match raw.product {
                    Some(p) => p@,
                    None => Seq::empty(),
                }),
            );
            let c = class_of(raw);
            let gd = raw.usage_page == Some(0x01u16);
            let desktop = gd && (raw.usage == Some(0x06u16) || raw.usage == Some(0x02u16) || raw.usage
                == Some(0x04u16) || raw.usage == Some(0x05u16));
            let kw = contains(t, "keyboard"@) || contains(t, "alloy"@);
            let mw = contains(t, "mouse"@) || contains(t, "pulsefire"@);
            let hw = contains(t, "headset"@) || contains(t, "cloud"@);
            let micw = contains(t, "microphone"@) || contains(t, "quadcast"@) || contains(t, "solocast"@);
            let cw = contains(t, "controller"@) || contains(t, "gamepad"@) || contains(t, "clutch"@);
            let ww = contains(t, "webcam"@) || contains(t, "camera"@) || raw.usb_class_codes@.contains(
                0x0eu8,
            );
            let pw = contains(t, "mousepad"@) || contains(t, "mouse pad"@) || contains(t, "mat"@);
            let dw = contains(t, "monitor"@) || contains(t, "display"@);
            let audio = raw.usb_class_codes@.contains(0x01u8);
            &&& branding(raw) == t
            &&& gd && raw.usage == Some(0x06u16) ==> c == DeviceClass::Keyboard
            &&& gd && raw.usage == Some(0x02u16) ==> c == DeviceClass::Mouse
            &&& gd && (raw.usage == Some(0x04u16) || raw.usage == Some(0x05u16)) ==> c
                == DeviceClass::Controller
            &&& !desktop && kw ==> c == DeviceClass::Keyboard
            &&& !desktop && !kw && mw ==> c == DeviceClass::Mouse
            &&& !desktop && !kw && !mw && hw ==> c == DeviceClass::Headset
            &&& !desktop && !kw && !mw && !hw && micw ==> c == DeviceClass::Microphone
            &&& !desktop && !kw && !mw && !hw && !micw && cw ==> c == DeviceClass::Controller
            &&& !desktop && !kw && !mw && !hw && !micw && !cw && ww ==> c == DeviceClass::Webcam
            &&& !desktop && !kw && !mw && !hw && !micw && !cw && !ww && pw ==> c == DeviceClass::Mousepad
            &&& !desktop && !kw && !mw && !hw && !micw && !cw && !ww && !pw && dw ==> c
                == DeviceClass::Monitor
            &&& !desktop && !kw && !mw && !hw && !micw && !cw && !ww && !pw && !dw && audio ==> c
                == DeviceClass::UsbAudio
            &&& !desktop && !kw && !mw && !hw && !micw && !cw && !ww && !pw && !dw && !audio ==> c == (
            if raw.source == InterfaceSource::Hid {
                DeviceClass::GenericHid
            } else {
                DeviceClass::Other
            })
        }),
{
}

pub fn is_hyperx(raw: &RawInterface) -> (r: bool)
    ensures
        r == (family_of(*raw) is HyperX),
{
    matches!(vendor_family(raw), VendorFamily::HyperX)
}

/// How telling a class is: input and audio devices most, then the other
/// named ones, then audio interfaces, generic HID, and anything else.
pub open spec fn class_score(c: DeviceClass) -> nat {
    match c {
        DeviceClass::Keyboard | DeviceClass::Mouse | DeviceClass::Headset
        | DeviceClass::Microphone => 5,
        DeviceClass::Controller | DeviceClass::Webcam | DeviceClass::Mousepad
        | DeviceClass::Monitor => 4,
        DeviceClass::AudioInterface | DeviceClass::UsbAudio => 3,
        DeviceClass::GenericHid => 2,
        DeviceClass::Other => 1,
    }
}

pub fn score_class(class: DeviceClass) -> (r: u8)
    ensures
        r == class_score(class),
{
    match class {
        DeviceClass::Keyboard | DeviceClass::Mouse | DeviceClass::Headset
        | DeviceClass::Microphone => 5,
        DeviceClass::Controller | DeviceClass::Webcam | DeviceClass::Mousepad
        | DeviceClass::Monitor => 4,
        DeviceClass::AudioInterface | DeviceClass::UsbAudio => 3,
        DeviceClass::GenericHid => 2,
        DeviceClass::Other => 1,
    }
}

/// The family of a group of interfaces: HyperX if any interface is, else
/// the first one's.
pub open spec fn merged_family(raws: Seq<RawInterface>) -> FamilyView {
    if exists|i: int| 0 <= i < raws.len() && #[trigger] family_of(raws[i]) is HyperX {
        FamilyView::HyperX
    } else if raws.len() > 0 {
        family_of(raws[0])
    } else {
        FamilyView::Unknown
    }
}

pub fn merge_vendor(raws: &[RawInterface]) -> (r: VendorFamily)
    ensures
        family_view(r) == merged_family(raws@),
{
    let mut i: usize = 0;
    while i < raws.len()
        invariant
            i <= raws@.len(),
            forall|j: int| 0 <= j < i ==> !(#[trigger] family_of(raws@[j]) is HyperX),
        decreases raws@.len() - i,
    {
        if is_hyperx(&raws[i]) {
            return VendorFamily::HyperX;
        }
        i = i + 1;
    }
    if raws.len() > 0 {
        vendor_family(&raws[0])
    } else {
        VendorFamily::Unknown
    }
}

/// The class of a group: the best-scoring class of its interfaces, the last
/// of equals; `Other` for no interfaces.
pub open spec fn is_merged_class(raws: Seq<RawInterface>, i: int) -> bool {
    &&& 0 <= i < raws.len()
    &&& forall|j: int| 0 <= j < raws.len() ==> class_score(class_of(#[trigger] raws[j])) <= class_score(class_of(raws[i]))
    &&& forall|j: int| i < j < raws.len() ==> class_score(class_of(#[trigger] raws[j])) < class_score(class_of(raws[i]))
}

pub fn merge_class(raws: &[RawInterface]) -> (r: DeviceClass)
    ensures
        raws@.len() == 0 ==> r == DeviceClass::Other,
        raws@.len() > 0 ==> exists|i: int| is_merged_class(raws@, i) && r == class_of(raws@[i]),
{
    if raws.len() == 0 {
        return DeviceClass::Other;
    }
    let mut best: usize = 0;
    let mut best_class = device_class(&raws[0]);
    let mut best_score = score_class(best_class);
    let mut i: usize = 1;
    while i < raws.len()
        invariant
            1 <= i <= raws@.len(),
            best < i,
            best_class == class_of(raws@[best as int]),
            best_score == class_score(best_class),
            forall|j: int| 0 <= j < i ==> class_score(class_of(#[trigger] raws@[j])) <= best_score,
            forall|j: int| best < j < i ==> class_score(class_of(#[trigger] raws@[j])) < best_score,
        decreases raws@.len() - i,
    {
        let c = device_class(&raws[i]);
        let s = score_class(c);
        if s >= best_score {
            best = i;
            best_class = c;
            best_score = s;
        }
        i = i + 1;
    }
    assert(is_merged_class(raws@, best as int));
    best_class
}

/// HID only, USB only, audio only, or a composite of several.
pub open spec fn connection_of(raws: Seq<RawInterface>) -> ConnectionKind {
    let hid = exists|i: int| 0 <= i < raws.len() && #[trigger] raws[i].source == InterfaceSource::Hid;
    let usb = exists|i: int| 0 <= i < raws.len() && #[trigger] raws[i].source == InterfaceSource::Usb;
    let audio = exists|i: int|
        0 <= i < raws.len() && #[trigger] raws[i].source == InterfaceSource::Audio;
    if hid && !usb && !audio {
        ConnectionKind::Hid
    } else if !hid && usb && !audio {
        ConnectionKind::Usb
    } else if !hid && !usb && audio {
        ConnectionKind::Audio
    } else {
        ConnectionKind::Composite
    }
}

fn any_source(raws: &[RawInterface], s: InterfaceSource) -> (r: bool)
    ensures
        r == exists|i: int| 0 <= i < raws@.len() && #[trigger] raws@[i].source == s,
{
    let mut i: usize = 0;
    while i < raws.len()
        invariant
            i <= raws@.len(),
            forall|j: int| 0 <= j < i ==> #[trigger] raws@[j].source != s,
        decreases raws@.len() - i,
    {
        if raws[i].source == s {
            return true;
        }
        i = i + 1;
    }
    false
}

pub fn connection_kind(raws: &[RawInterface]) -> (r: ConnectionKind)
    ensures
        r == connection_of(raws@),
{
    let hid = any_source(raws, InterfaceSource::Hid);
    let usb = any_source(raws, InterfaceSource::Usb);
    let audio = any_source(raws, InterfaceSource::Audio);
    if hid && !usb && !audio {
        ConnectionKind::Hid
    } else if !hid && usb && !audio {
        ConnectionKind::Usb
    } else if !hid && !usb && audio {
        ConnectionKind::Audio
    } else {
        ConnectionKind::Composite
    }
}

/// A character kept in an identifier; everything else becomes `_`.
pub open spec fn safe_char(c: char) -> bool {
    is_alnum(c) || c == '-' || c == '_' || c == '.'
}

pub open spec fn sanitized(s: Seq<char>) -> Seq<char> {
    s.map_values(|c: char| if safe_char(c) { c } else { '_' })
}

pub fn sanitize(value: &str) -> (r: String)
    ensures
        r@ == sanitized(value@),
{
    let s = str_chars(value);
    let mut out: Vec<char> = Vec::new();
    let mut i: usize = 0;
    while i < s.len()
        invariant
            i <= s@.len(),
            out@ == sanitized(s@.take(i as int)),
        decreases s@.len() - i,
    {
        let c = s[i];
        let keep = is_ascii_alphanumeric(c) || c == '-' || c == '_' || c == '.';
        out.push(if keep { c } else { '_' });
        assert(sanitized(s@.take(i as int + 1)) =~= sanitized(s@.take(i as int)).push(
            if safe_char(c) { c } else { '_' },
        ));
        i = i + 1;
    }
    assert(s@.take(s@.len() as int) == s@);
    string_from(&out)
}

pub open spec fn nonblank(o: Option<String>) -> Option<Seq<char>> {
    match opt_view(o) {
        Some(s) => if trim(s).len() > 0 {
            Some(s)
        } else {
            None
        },
        None => None,
    }
}

pub open spec fn ids_text(vendor_id: u16, product_id: u16) -> Seq<char> {
    hex_str(vendor_id as nat, 4) + ":"@ + hex_str(product_id as nat, 4)
}

/// The key interfaces of one device share: the serial number, else the USB
/// parent, else the path, each with the USB ids in front.
pub open spec fn group_key_of(raw: RawInterface) -> Seq<char> {
    match nonblank(raw.serial) {
        Some(s) => "serial:"@ + ids_text(raw.vendor_id, raw.product_id) + ":"@ + sanitized(s),
        None => match nonblank(raw.usb_parent) {
            Some(p) => "parent:"@ + ids_text(raw.vendor_id, raw.product_id) + ":"@ + sanitized(p),
            None => "path:"@ + ids_text(raw.vendor_id, raw.product_id) + ":"@ + sanitized(raw.path@),
        },
    }
}

proof fn lemma_digit_char_injective(a: nat, b: nat)
    requires
        a < 16,
        b < 16,
        crate::text::digit_char(a) == crate::text::digit_char(b),
    ensures
        a == b,
{
    assert(crate::text::digit_char(a) as u32 == (if a < 10 {
        a + 48
    } else {
        a + 87
    }));
    assert(crate::text::digit_char(b) as u32 == (if b < 10 {
        b + 48
    } else {
        b + 87
    }));
}

proof fn lemma_hex4_digits(n: nat)
    requires
        n < 0x10000,
    ensures
        hex_str(n, 4) == seq![
            crate::text::digit_char(n / 4096),
            crate::text::digit_char((n / 256) % 16),
            crate::text::digit_char((n / 16) % 16),
            crate::text::digit_char(n % 16),
        ],
{
    assert((n / 16) / 16 == n / 256) by (nonlinear_arith);
    assert((n / 256) / 16 == n / 4096) by (nonlinear_arith);
    assert(n / 4096 < 16) by (nonlinear_arith)
        requires
            n < 0x10000,
    ;
    reveal_with_fuel(hex_str, 5);
    assert(hex_str(n / 4096, 1) == seq![crate::text::digit_char(n / 4096)]);
    assert(hex_str(n / 256, 2) == hex_str(n / 4096, 1).push(crate::text::digit_char((n / 256) % 16)));
    assert(hex_str(n / 16, 3) == hex_str(n / 256, 2).push(crate::text::digit_char((n / 16) % 16)));
    assert(hex_str(n, 4) == hex_str(n / 16, 3).push(crate::text::digit_char(n % 16)));
}

proof fn lemma_hex4_injective(a: nat, b: nat)
    requires
        a < 0x10000,
        b < 0x10000,
        hex_str(a, 4) == hex_str(b, 4),
    ensures
        a == b,
{
    lemma_hex4_digits(a);
    lemma_hex4_digits(b);
    assert(hex_str(a, 4)[0] == hex_str(b, 4)[0]);
    assert(hex_str(a, 4)[1] == hex_str(b, 4)[1]);
    assert(hex_str(a, 4)[2] == hex_str(b, 4)[2]);
    assert(hex_str(a, 4)[3] == hex_str(b, 4)[3]);
    assert(a / 4096 < 16 && b / 4096 < 16) by (nonlinear_arith)
        requires
            a < 0x10000,
            b < 0x10000,
    ;
    lemma_digit_char_injective(a / 4096, b / 4096);
    lemma_digit_char_injective((a / 256) % 16, (b / 256) % 16);
    lemma_digit_char_injective((a / 16) % 16, (b / 16) % 16);
    lemma_digit_char_injective(a % 16, b % 16);
    assert(a == 4096 * (a / 4096) + 256 * ((a / 256) % 16) + 16 * ((a / 16) % 16) + a % 16)
        by (nonlinear_arith);
    assert(b == 4096 * (b / 4096) + 256 * ((b / 256) % 16) + 16 * ((b / 16) % 16) + b % 16)
        by (nonlinear_arith);
}

proof fn lemma_key_parts(prefix: Seq<char>, v: u16, p: u16, rest: Seq<char>)
    ensures
        ({
            let k = prefix + ids_text(v, p) + ":"@ + rest;
            &&& k.subrange(0, prefix.len() as int) == prefix
            &&& k.subrange(prefix.len() as int, prefix.len() as int + 4) == hex_str(v as nat, 4)
            &&& k.subrange(prefix.len() as int + 5, prefix.len() as int + 9) == hex_str(p as nat, 4)
        }),
{
    reveal_strlit(":");
    lemma_hex4_digits(v as nat);
    lemma_hex4_digits(p as nat);
    let k = prefix + ids_text(v, p) + ":"@ + rest;
    assert(k.subrange(0, prefix.len() as int) =~= prefix);
    assert(k.subrange(prefix.len() as int, prefix.len() as int + 4) =~= hex_str(v as nat, 4));
    assert(k.subrange(prefix.len() as int + 5, prefix.len() as int + 9) =~= hex_str(p as nat, 4));
}

/// How interfaces are grouped into devices, by their group keys. Two
/// interfaces with the same USB ids share a key when they carry the same
/// non-blank serial number (wherever they sit); without serials, when they
/// have the same non-blank USB parent; without either, when they have the
/// same path. Interfaces whose USB vendor or product ids differ never share a
/// key.
pub proof fn law_group_key_by_identity(a: RawInterface, b: RawInterface)
    ensures
        ({
            let same_ids = a.vendor_id == b.vendor_id && a.product_id == b.product_id;
            let blank_serial = |r: RawInterface| r.serial is None || trim(r.serial->0@).len() == 0;
            let blank_parent = |r: RawInterface| r.usb_parent is None || trim(r.usb_parent->0@).len()
                == 0;
            &&& same_ids && !blank_serial(a) && b.serial is Some && b.serial->0@ == a.serial->0@
                ==> group_key_of(a) == group_key_of(b)
            &&& same_ids && blank_serial(a) && blank_serial(b) && !blank_parent(a) && b.usb_parent is Some
                && b.usb_parent->0@ == a.usb_parent->0@ ==> group_key_of(a) == group_key_of(b)
            &&& same_ids && blank_serial(a) && blank_serial(b) && blank_parent(a) && blank_parent(b)
                && a.path@ == b.path@ ==> group_key_of(a) == group_key_of(b)
            &&& !same_ids ==> group_key_of(a) != group_key_of(b)
        }),
{
    if (a.vendor_id != b.vendor_id || a.product_id != b.product_id) && group_key_of(a) == group_key_of(b) {
        reveal_strlit("serial:");
        reveal_strlit("parent:");
        reveal_strlit("path:");
        let pa = match nonblank(a.serial) {
            Some(_) => "serial:"@,
            None => match nonblank(a.usb_parent) {
                Some(_) => "parent:"@,
                None => "path:"@,
            },
        };
        let ra = match nonblank(a.serial) {
            Some(s) => sanitized(s),
            None => match nonblank(a.usb_parent) {
                Some(p) => sanitized(p),
                None => sanitized(a.path@),
            },
        };
        let pb = match nonblank(b.serial) {
            Some(_) => "serial:"@,
            None => match nonblank(b.usb_parent) {
                Some(_) => "parent:"@,
                None => "path:"@,
            },
        };
        let rb = match nonblank(b.serial) {
            Some(s) => sanitized(s),
            None => match nonblank(b.usb_parent) {
                Some(p) => sanitized(p),
                None => sanitized(b.path@),
            },
        };
        assert(group_key_of(a) == pa + ids_text(a.vendor_id, a.product_id) + ":"@ + ra);
        assert(group_key_of(b) == pb + ids_text(b.vendor_id, b.product_id) + ":"@ + rb);
        lemma_key_parts(pa, a.vendor_id, a.product_id, ra);
        lemma_key_parts(pb, b.vendor_id, b.product_id, rb);
        let k = group_key_of(a);
        assert(k[0] == pa[0] && k[0] == pb[0]);
        assert(k[2] == pa[2] && k[2] == pb[2]);
        assert(pa == pb);
        lemma_hex4_injective(a.vendor_id as nat, b.vendor_id as nat);
        lemma_hex4_injective(a.product_id as nat, b.product_id as nat);
    }
}

fn nonblank_of(o: &Option<String>) -> (r: Option<&String>)
    ensures
        match nonblank(*o) {
            Some(s) => r matches Some(x) && x@ == s,
            None => r is None,
        },
{
    match o {
        Some(s) => if trim_ws(&str_chars(s.as_str())).len() > 0 {
            Some(s)
        } else {
            None
        },
        None => None,
    }
}

pub fn group_key(raw: &RawInterface) -> (r: String)
    ensures
        r@ == group_key_of(*raw),
{
    proof {
        reveal_strlit(":");
    }
    let ids = concat(
        &concat(&fmt_hex(raw.vendor_id as u128, 4), &str_chars(":")),
        &fmt_hex(raw.product_id as u128, 4),
    );
    let (head, tail) = match nonblank_of(&raw.serial) {
        Some(s) => ("serial:", sanitize(s.as_str())),
        None => match nonblank_of(&raw.usb_parent) {
            Some(p) => ("parent:", sanitize(p.as_str())),
            None => ("path:", sanitize(raw.path.as_str())),
        },
    };
    let text = concat(
        &concat(&concat(&str_chars(head), &ids), &str_chars(":")),
        &str_chars(tail.as_str()),
    );
    string_from(&text)
}

// ------------------------------------------------------------ sysfs values

/// The content of an attribute file, trimmed; nothing when blank.
pub open spec fn trimmed_value(text: Seq<char>) -> Option<Seq<char>> {
    if trim(text).len() > 0 {
        Some(trim(text))
    } else {
        None
    }
}

pub fn read_trimmed_value(text: &str) -> (r: Option<String>)
    ensures
        opt_view(r) == trimmed_value(text@),
{
    let t = trim_ws(&str_chars(text));
    if t.len() > 0 {
        Some(string_from(&t))
    } else {
        None
    }
}

/// Every leading `0x` removed.
pub open spec fn strip_hex_prefixes(s: Seq<char>) -> Seq<char>
    decreases s.len(),
{
    if has_prefix(s, "0x"@) && s.len() >= 2 {
        strip_hex_prefixes(s.skip(2))
    } else {
        s
    }
}

fn strip_all_0x(s: &Vec<char>) -> (r: Vec<char>)
    ensures
        r@ == strip_hex_prefixes(s@),
{
    proof {
        reveal_strlit("0x");
    }
    let zx = str_chars("0x");
    let mut cur = crate::text::slice_of(s, 0, s.len());
    assert(cur@ =~= s@);
    while crate::text::starts_with(&cur, &zx)
        invariant
            zx@ == "0x"@,
            strip_hex_prefixes(s@) == strip_hex_prefixes(cur@),
        decreases cur@.len(),
    {
        proof {
            reveal_strlit("0x");
        }
        assert(has_prefix(cur@, "0x"@));
        assert(cur@.len() >= 2);
        cur = crate::text::slice_of(&cur, 2, cur.len());
    }
    cur
}

/// A hexadecimal attribute (`idVendor`, `bDeviceClass`): trimmed, leading
/// `0x` removed, at most `max`.
pub open spec fn sysfs_hex(text: Seq<char>, max: nat) -> Option<nat> {
    match trimmed_value(text) {
        Some(t) => parse_bounded(strip_hex_prefixes(t), 16, max),
        None => None,
    }
}

pub fn parse_sysfs_hex_u16(text: &str) -> (r: Option<u16>)
    ensures
        match sysfs_hex(text@, 0xffff) {
            Some(v) => r == Some(v as u16),
            None => r is None,
        },
{
    let t = trim_ws(&str_chars(text));
    if t.len() == 0 {
        return None;
    }
    match parse_num(&strip_all_0x(&t), 16, 0xffff) {
        Some(v) => Some(v as u16),
        None => None,
    }
}

pub fn parse_sysfs_hex_u8(text: &str) -> (r: Option<u8>)
    ensures
        match sysfs_hex(text@, 0xff) {
            Some(v) => r == Some(v as u8),
            None => r is None,
        },
{
    let t = trim_ws(&str_chars(text));
    if t.len() == 0 {
        return None;
    }
    match parse_num(&strip_all_0x(&t), 16, 0xff) {
        Some(v) => Some(v as u8),
        None => None,
    }
}

/// A battery's `capacity`, capped at 100.
pub open spec fn capacity_of(text: Seq<char>) -> Option<u8> {
    match trimmed_value(text) {
        Some(t) => match parse_bounded(t, 10, 255) {
            Some(v) => Some(
                if v < 100 {
                    v as u8
                } else {
                    100u8
                },
            ),
            None => None,
        },
        None => None,
    }
}

pub fn parse_capacity(text: &str) -> (r: Option<u8>)
    ensures
        r == capacity_of(text@),
{
    let t = trim_ws(&str_chars(text));
    if t.len() == 0 {
        return None;
    }
    match parse_num(&t, 10, 255) {
        Some(v) => Some(
            if v < 100 {
                v as u8
            } else {
                100
            },
        ),
        None => None,
    }
}

/// A sysfs entry is a USB device (not an interface or a root hub).
pub open spec fn usb_device_entry(name: Seq<char>) -> bool {
    !name.contains(':') && !has_prefix(name, "usb"@)
}

pub fn is_usb_device_entry(name: &str) -> (r: bool)
    ensures
        r == usb_device_entry(name@),
{
    let s = str_chars(name);
    let mut i: usize = 0;
    while i < s.len()
        invariant
            i <= s@.len(),
            s@ == name@,
            forall|j: int| 0 <= j < i ==> s@[j] != ':',
        decreases s@.len() - i,
    {
        if s[i] == ':' {
            assert(s@[i as int] == ':');
            assert(name@.contains(':'));
            return false;
        }
        i = i + 1;
    }
    !crate::text::starts_with(&s, &str_chars("usb"))
}

// ------------------------------------------------------------ grouping

/// An entry of the mouse registry as discovery reads it: the exact USB
/// identities it covers, its native driver where one is implemented, what
/// that driver can do, and whether it covers the whole device.
#[derive(Debug, Clone)]
pub struct NativeModel {
    pub exact_ids: Vec<(u16, u16)>,
    pub native_driver: Option<String>,
    pub native_capabilities: Vec<Capability>,
    pub complete: bool,
}

/// The native driver that discovery grants an exact identity.
#[derive(Debug, Clone)]
pub struct DriverDefinition {
    pub id: String,
    pub capabilities: Vec<Capability>,
    pub complete: bool,
}

/// A device with the raw interfaces it was built from.
#[derive(Debug, Clone)]
pub struct DiscoveredDevice {
    pub info: DeviceInfo,
    pub raw_interfaces: Vec<RawInterface>,
}

pub open spec fn model_matches(m: NativeModel, vendor_id: u16, product_id: u16) -> bool {
    m.native_driver is Some && m.exact_ids@.contains((vendor_id, product_id))
}

pub open spec fn matches_ids(vendor_id: u16, product_id: u16) -> spec_fn(NativeModel) -> bool {
    |m: NativeModel| model_matches(m, vendor_id, product_id)
}

/// The registry entry whose driver an identity gets: the first with a native
/// driver that lists the identity exactly. Names alone never count.
pub open spec fn driver_entry(models: Seq<NativeModel>, vendor_id: u16, product_id: u16) -> Option<int> {
    first_index(models, matches_ids(vendor_id, product_id))
}

pub open spec fn is_driver_of(d: DriverDefinition, m: NativeModel) -> bool {
    &&& m.native_driver matches Some(id) && d.id@ == id@
    &&& d.capabilities@ == m.native_capabilities@
    &&& d.complete == m.complete
}

fn lists_ids(ids: &Vec<(u16, u16)>, vendor_id: u16, product_id: u16) -> (r: bool)
    ensures
        r == ids@.contains((vendor_id, product_id)),
{
    let mut i: usize = 0;
    while i < ids.len()
        invariant
            i <= ids@.len(),
            forall|j: int| 0 <= j < i ==> #[trigger] ids@[j] != (vendor_id, product_id),
        decreases ids@.len() - i,
    {
        let (v, p) = ids[i];
        if v == vendor_id && p == product_id {
            assert(ids@[i as int] == (vendor_id, product_id));
            return true;
        }
        i = i + 1;
    }
    false
}

fn copy_caps(v: &Vec<Capability>) -> (r: Vec<Capability>)
    ensures
        r@ == v@,
{
    let mut out: Vec<Capability> = Vec::new();
    let mut i: usize = 0;
    while i < v.len()
        invariant
            i <= v@.len(),
            out@ == v@.take(i as int),
        decreases v@.len() - i,
    {
        out.push(v[i]);
        assert(v@.take(i as int + 1) == v@.take(i as int).push(v@[i as int]));
        i = i + 1;
    }
    assert(v@.take(v@.len() as int) == v@);
    out
}

/// The native driver for an exact identity, from the registry.
pub fn driver_for(models: &[NativeModel], vendor_id: u16, product_id: u16) -> (r: Option<DriverDefinition>)
    ensures
        match driver_entry(models@, vendor_id, product_id) {
            Some(i) => r matches Some(d) && is_driver_of(d, models@[i]),
            None => r is None,
        },
{
    let mut i: usize = 0;
    while i < models.len()
        invariant
            i <= models@.len(),
            forall|j: int| 0 <= j < i ==> !model_matches(#[trigger] models@[j], vendor_id, product_id),
        decreases models@.len() - i,
    {
        let m = &models[i];
        match &m.native_driver {
            Some(id) => {
                if lists_ids(&m.exact_ids, vendor_id, product_id) {
                    proof {
                        lemma_first_index_is(models@, matches_ids(vendor_id, product_id), i as int);
                    }
                    return Some(
                        DriverDefinition {
                            id: copy_string(id),
                            capabilities: copy_caps(&m.native_capabilities),
                            complete: m.complete,
                        },
                    );
                }
            },
            None => {},
        }
        i = i + 1;
    }
    proof {
        lemma_first_index_is(models@, matches_ids(vendor_id, product_id), i as int);
    }
    None
}

/// The interface a group is built around: the best-scoring class, the last
/// of equals.
pub open spec fn primary_of(raws: Seq<RawInterface>) -> int {
    choose|i: int| is_merged_class(raws, i)
}

proof fn lemma_merged_class_unique(raws: Seq<RawInterface>, i: int, j: int)
    requires
        is_merged_class(raws, i),
        is_merged_class(raws, j),
    ensures
        i == j,
{
    if i < j {
        assert(class_score(class_of(raws[j])) < class_score(class_of(raws[i])));
        assert(class_score(class_of(raws[j])) >= class_score(class_of(raws[i])));
    } else if j < i {
        assert(class_score(class_of(raws[i])) < class_score(class_of(raws[j])));
        assert(class_score(class_of(raws[i])) >= class_score(class_of(raws[j])));
    }
}

fn primary_index(raws: &[RawInterface]) -> (r: usize)
    requires
        raws@.len() > 0,
    ensures
        is_merged_class(raws@, r as int),
        r as int == primary_of(raws@),
{
    let mut best: usize = 0;
    let mut best_score = score_class(device_class(&raws[0]));
    let mut i: usize = 1;
    while i < raws.len()
        invariant
            1 <= i <= raws@.len(),
            best < i,
            best_score == class_score(class_of(raws@[best as int])),
            forall|j: int| 0 <= j < i ==> class_score(class_of(#[trigger] raws@[j])) <= best_score,
            forall|j: int| best < j < i ==> class_score(class_of(#[trigger] raws@[j])) < best_score,
        decreases raws@.len() - i,
    {
        let s = score_class(device_class(&raws[i]));
        if s >= best_score {
            best = i;
            best_score = s;
        }
        i = i + 1;
    }
    proof {
        assert(is_merged_class(raws@, best as int));
        lemma_merged_class_unique(raws@, best as int, primary_of(raws@));
    }
    best
}

pub open spec fn serial_views(raws: Seq<RawInterface>) -> Seq<Option<Seq<char>>> {
    raws.map_values(|r: RawInterface| opt_view(r.serial))
}

pub open spec fn manufacturer_views(raws: Seq<RawInterface>) -> Seq<Option<Seq<char>>> {
    raws.map_values(|r: RawInterface| opt_view(r.manufacturer))
}

pub open spec fn product_views(raws: Seq<RawInterface>) -> Seq<Option<Seq<char>>> {
    raws.map_values(|r: RawInterface| opt_view(r.product))
}

pub open spec fn parent_views(raws: Seq<RawInterface>) -> Seq<Option<Seq<char>>> {
    raws.map_values(|r: RawInterface| opt_view(r.usb_parent))
}

pub open spec fn is_nonblank() -> spec_fn(Option<Seq<char>>) -> bool {
    |o: Option<Seq<char>>| o is Some && trim(o->0).len() > 0
}

/// The first entry that is present and not blank.
pub open spec fn first_nonblank(s: Seq<Option<Seq<char>>>) -> Option<Seq<char>> {
    match first_index(s, is_nonblank()) {
        Some(i) => s[i],
        None => None,
    }
}

/// A device's name: the first product name that is not blank, else the first
/// manufacturer, else the USB ids of the primary interface.
pub open spec fn device_name(raws: Seq<RawInterface>, primary: RawInterface) -> Seq<char> {
    match first_nonblank(product_views(raws)) {
        Some(n) => n,
        None => match first_text(manufacturer_views(raws)) {
            Some(m) => m,
            None => "USB "@ + ids_text(primary.vendor_id, primary.product_id),
        },
    }
}

/// What a device's id is made from: the first serial number, else the first
/// USB parent, else the primary interface's path.
pub open spec fn id_seed(raws: Seq<RawInterface>, primary: RawInterface) -> Seq<char> {
    match first_text(serial_views(raws)) {
        Some(s) => s,
        None => match first_text(parent_views(raws)) {
            Some(p) => p,
            None => primary.path@,
        },
    }
}

/// The single-text keys that order interfaces by path.
pub open spec fn path_keys(raws: Seq<RawInterface>) -> Seq<Seq<Seq<char>>> {
    raws.map_values(|r: RawInterface| seq![r.path@])
}

pub open spec fn is_interface_of(d: DeviceInterface, raw: RawInterface) -> bool {
    &&& d.source == raw.source
    &&& d.path@ == raw.path@
    &&& d.vendor_id == nonzero(raw.vendor_id)
    &&& d.product_id == nonzero(raw.product_id)
    &&& d.interface_number == raw.interface_number
    &&& d.usage_page == raw.usage_page
    &&& d.usage == raw.usage
    &&& d.audio_node_id == raw.audio_node_id
    &&& opt_view(d.usb_parent) == opt_view(raw.usb_parent)
}

/// The capabilities a device starts with: diagnostics, and what its native
/// driver offers.
pub open spec fn starting_caps(models: Seq<NativeModel>, p: RawInterface, c: Capability) -> bool {
    c == Capability::Diagnostics || match driver_entry(models, p.vendor_id, p.product_id) {
        Some(i) => models[i].native_capabilities@.contains(c),
        None => false,
    }
}

/// Fully supported with a complete native driver, partly with another one,
/// diagnostic only without.
pub open spec fn starting_level(models: Seq<NativeModel>, p: RawInterface) -> SupportLevel {
    match driver_entry(models, p.vendor_id, p.product_id) {
        Some(i) => if models[i].complete {
            SupportLevel::FullySupported
        } else {
            SupportLevel::PartiallySupported
        },
        None => SupportLevel::DiagnosticOnly,
    }
}

pub open spec fn starting_protocol(models: Seq<NativeModel>, p: RawInterface) -> Option<Seq<char>> {
    match driver_entry(models, p.vendor_id, p.product_id) {
        Some(i) => opt_view(models[i].native_driver),
        None => None,
    }
}

/// `d` is the device that the group `raws` makes: its interfaces in path
/// order (stable), named, identified and classified from them, with the
/// native driver of the primary interface's exact identity.
pub open spec fn built_from(raws: Seq<RawInterface>, models: Seq<NativeModel>, d: DiscoveredDevice) -> bool {
    let s = d.raw_interfaces@;
    let p = s[primary_of(s)];
    let info = d.info;
    &&& stably_sorted(raws, path_keys(raws), s)
    &&& info.vendor_id == p.vendor_id
    &&& info.product_id == p.product_id
    &&& info.id.0@ == ids_text(p.vendor_id, p.product_id) + ":"@ + sanitized(id_seed(s, p))
    &&& info.name@ == device_name(s, p)
    &&& opt_view(info.manufacturer) == first_text(manufacturer_views(s))
    &&& opt_view(info.serial) == first_text(serial_views(s))
    &&& family_view(info.vendor_family) == merged_family(s)
    &&& info.device_class == class_of(p)
    &&& info.connection_kind == connection_of(s)
    &&& info.interfaces@.len() == s.len()
    &&& forall|i: int| 0 <= i < s.len() ==> is_interface_of(#[trigger] info.interfaces@[i], s[i])
    &&& sorted_caps(info.capabilities@)
    &&& forall|c: Capability| info.capabilities@.contains(c) <==> starting_caps(models, p, c)
    &&& info.support_level == starting_level(models, p)
    &&& opt_view(info.protocol) == starting_protocol(models, p)
    &&& info.generic_capabilities@.len() == 0
    &&& info.capability_owners@.len() == 0
    &&& info.battery_percent is None
    &&& info.battery_state is None
}

fn first_serial(raws: &[RawInterface]) -> (r: Option<String>)
    ensures
        opt_view(r) == first_text(serial_views(raws@)),
{
    let ghost v = serial_views(raws@);
    let mut i: usize = 0;
    while i < raws.len()
        invariant
            i <= raws@.len(),
            v == serial_views(raws@),
            forall|j: int| 0 <= j < i ==> !is_present()(#[trigger] v[j]),
        decreases raws@.len() - i,
    {
        if raws[i].serial.is_some() {
            proof {
                lemma_first_index_is(v, is_present(), i as int);
            }
            return copy_opt(&raws[i].serial);
        }
        i = i + 1;
    }
    proof {
        lemma_first_index_is(v, is_present(), i as int);
    }
    None
}

fn first_manufacturer(raws: &[RawInterface]) -> (r: Option<String>)
    ensures
        opt_view(r) == first_text(manufacturer_views(raws@)),
{
    let ghost v = manufacturer_views(raws@);
    let mut i: usize = 0;
    while i < raws.len()
        invariant
            i <= raws@.len(),
            v == manufacturer_views(raws@),
            forall|j: int| 0 <= j < i ==> !is_present()(#[trigger] v[j]),
        decreases raws@.len() - i,
    {
        if raws[i].manufacturer.is_some() {
            proof {
                lemma_first_index_is(v, is_present(), i as int);
            }
            return copy_opt(&raws[i].manufacturer);
        }
        i = i + 1;
    }
    proof {
        lemma_first_index_is(v, is_present(), i as int);
    }
    None
}

fn first_parent(raws: &[RawInterface]) -> (r: Option<String>)
    ensures
        opt_view(r) == first_text(parent_views(raws@)),
{
    let ghost v = parent_views(raws@);
    let mut i: usize = 0;
    while i < raws.len()
        invariant
            i <= raws@.len(),
            v == parent_views(raws@),
            forall|j: int| 0 <= j < i ==> !is_present()(#[trigger] v[j]),
        decreases raws@.len() - i,
    {
        if raws[i].usb_parent.is_some() {
            proof {
                lemma_first_index_is(v, is_present(), i as int);
            }
            return copy_opt(&raws[i].usb_parent);
        }
        i = i + 1;
    }
    proof {
        lemma_first_index_is(v, is_present(), i as int);
    }
    None
}

fn first_product_name(raws: &[RawInterface]) -> (r: Option<String>)
    ensures
        opt_view(r) == first_nonblank(product_views(raws@)),
{
    let ghost v = product_views(raws@);
    let mut i: usize = 0;
    while i < raws.len()
        invariant
            i <= raws@.len(),
            v == product_views(raws@),
            forall|j: int| 0 <= j < i ==> !is_nonblank()(#[trigger] v[j]),
        decreases raws@.len() - i,
    {
        match &raws[i].product {
            Some(name) => {
                if trim_ws(&str_chars(name.as_str())).len() > 0 {
                    proof {
                        lemma_first_index_is(v, is_nonblank(), i as int);
                    }
                    return Some(copy_string(name));
                }
            },
            None => {},
        }
        i = i + 1;
    }
    proof {
        lemma_first_index_is(v, is_nonblank(), i as int);
    }
    None
}

fn path_key_vec(raws: &Vec<RawInterface>) -> (r: Vec<Vec<Vec<char>>>)
    ensures
        r@.len() == raws@.len(),
        key_views(r@) == path_keys(raws@),
{
    let mut out: Vec<Vec<Vec<char>>> = Vec::new();
    let mut i: usize = 0;
    while i < raws.len()
        invariant
            i <= raws@.len(),
            out@.len() == i,
            forall|j: int| 0 <= j < i ==> key_view(#[trigger] out@[j]@) == seq![raws@[j].path@],
        decreases raws@.len() - i,
    {
        let k = vec![str_chars(raws[i].path.as_str())];
        assert(key_view(k@) =~= seq![raws@[i as int].path@]);
        out.push(k);
        i = i + 1;
    }
    assert(key_views(out@) =~= path_keys(raws@));
    out
}

fn interfaces_of(raws: &Vec<RawInterface>) -> (r: Vec<DeviceInterface>)
    ensures
        r@.len() == raws@.len(),
        forall|i: int| 0 <= i < raws@.len() ==> is_interface_of(#[trigger] r@[i], raws@[i]),
{
    let mut out: Vec<DeviceInterface> = Vec::new();
    let mut i: usize = 0;
    while i < raws.len()
        invariant
            i <= raws@.len(),
            out@.len() == i,
            forall|j: int| 0 <= j < i ==> is_interface_of(#[trigger] out@[j], raws@[j]),
        decreases raws@.len() - i,
    {
        out.push(interface_from_raw(&raws[i]));
        i = i + 1;
    }
    out
}

/// The device that one group of interfaces makes (see `built_from`).
pub fn build_device(raws: Vec<RawInterface>, models: &[NativeModel]) -> (r: DiscoveredDevice)
    requires
        raws@.len() > 0,
    ensures
        built_from(raws@, models@, r),
{
    let keys = path_key_vec(&raws);
    let sorted = stable_sort_by_keys(raws, keys);
    let pi = primary_index(&sorted);
    let vendor_id = sorted[pi].vendor_id;
    let product_id = sorted[pi].product_id;
    let driver = driver_for(models, vendor_id, product_id);
    let mut caps: Vec<Capability> = vec![Capability::Diagnostics];
    let (support_level, protocol) = match &driver {
        Some(d) => {
            let mut j: usize = 0;
            while j < d.capabilities.len()
                invariant
                    j <= d.capabilities@.len(),
                    caps@ == seq![Capability::Diagnostics] + d.capabilities@.take(j as int),
                decreases d.capabilities@.len() - j,
            {
                caps.push(d.capabilities[j]);
                assert(d.capabilities@.take(j as int + 1) == d.capabilities@.take(j as int).push(
                    d.capabilities@[j as int],
                ));
                j = j + 1;
            }
            assert(d.capabilities@.take(d.capabilities@.len() as int) == d.capabilities@);
            (
                if d.complete {
                    SupportLevel::FullySupported
                } else {
                    SupportLevel::PartiallySupported
                },
                Some(copy_string(&d.id)),
            )
        },
        None => (SupportLevel::DiagnosticOnly, None),
    };
    let ghost p = sorted@[pi as int];
    assert forall|c: Capability| caps@.contains(c) <==> starting_caps(models@, p, c) by {
        if caps@.contains(c) && c != Capability::Diagnostics {
            let j = choose|j: int| 0 <= j < caps@.len() && caps@[j] == c;
            assert(caps@[j] == driver->0.capabilities@[j - 1]);
        }
        if c == Capability::Diagnostics {
            assert(caps@[0] == c);
        } else if starting_caps(models@, p, c) {
            let d = driver->0;
            let j = choose|j: int| 0 <= j < d.capabilities@.len() && d.capabilities@[j] == c;
            assert(caps@[j + 1] == c);
        }
    }
    let capabilities = sort_dedup(&caps);
    let vendor_family = merge_vendor(&sorted);
    let device_class = device_class(&sorted[pi]);
    let connection_kind = connection_kind(&sorted);
    let interfaces = interfaces_of(&sorted);
    let serial = first_serial(&sorted);
    let manufacturer = first_manufacturer(&sorted);
    let ids = concat(&concat(&fmt_hex(vendor_id as u128, 4), &str_chars(":")), &fmt_hex(product_id as u128, 4));
    let name = match first_product_name(&sorted) {
        Some(n) => n,
        None => match copy_opt(&manufacturer) {
            Some(m) => m,
            None => string_from(&concat(&str_chars("USB "), &ids)),
        },
    };
    let seed = match copy_opt(&serial) {
        Some(s) => s,
        None => match first_parent(&sorted) {
            Some(parent) => parent,
            None => copy_string(&sorted[pi].path),
        },
    };
    let id = string_from(&concat(&concat(&ids, &str_chars(":")), &str_chars(sanitize(seed.as_str()).as_str())));
    DiscoveredDevice {
        info: DeviceInfo {
            id: DeviceId(id),
            name,
            manufacturer,
            vendor_id,
            product_id,
            serial,
            vendor_family,
            device_class,
            support_level,
            connection_kind,
            interfaces,
            capabilities,
            generic_capabilities: Vec::new(),
            capability_owners: Vec::new(),
            battery_percent: None,
            battery_state: None,
            protocol,
        },
        raw_interfaces: sorted,
    }
}

/// One-text keys that order interfaces by group key.
pub open spec fn group_keys(raws: Seq<RawInterface>) -> Seq<Seq<Seq<char>>> {
    raws.map_values(|r: RawInterface| seq![group_key_of(r)])
}

/// The runs of consecutive interfaces that share a group key.
pub open spec fn runs(s: Seq<RawInterface>) -> Seq<Seq<RawInterface>>
    decreases s.len(),
{
    if s.len() == 0 {
        Seq::empty()
    } else {
        let rest = runs(s.drop_last());
        if rest.len() > 0 && group_key_of(rest.last().last()) == group_key_of(s.last()) {
            rest.update(rest.len() - 1, rest.last().push(s.last()))
        } else {
            rest.push(seq![s.last()])
        }
    }
}

/// Two-text keys that order devices by name, then id.
pub open spec fn device_keys(d: Seq<DiscoveredDevice>) -> Seq<Seq<Seq<char>>> {
    d.map_values(|x: DiscoveredDevice| seq![x.info.name@, x.info.id.0@])
}

/// `r` is what grouping `raws` gives: the interfaces ordered by group key
/// (stable), each run of one key built into a device, and the devices
/// ordered by name, then id (stable).
pub open spec fn grouped(raws: Seq<RawInterface>, models: Seq<NativeModel>, r: Seq<DiscoveredDevice>) -> bool {
    exists|g: Seq<RawInterface>, d: Seq<DiscoveredDevice>|
        {
            &&& stably_sorted(raws, group_keys(raws), g)
            &&& d.len() == runs(g).len()
            &&& forall|i: int| 0 <= i < d.len() ==> built_from(runs(g)[i], models, #[trigger] d[i])
            &&& stably_sorted(d, device_keys(d), r)
        }
}

/// The group key of an interface, as the key interfaces are sorted by.
pub open spec fn gkey(r: RawInterface) -> Seq<Seq<char>> {
    seq![group_key_of(r)]
}

/// `s` is in group-key order.
pub open spec fn key_sorted(s: Seq<RawInterface>) -> bool {
    forall|i: int, j: int| 0 <= i < j < s.len() ==> !key_lt(#[trigger] gkey(s[j]), #[trigger] gkey(s[i]))
}

/// Some run holds `x`.
pub open spec fn in_runs(rs: Seq<Seq<RawInterface>>, x: RawInterface) -> bool {
    exists|a: int| 0 <= a < rs.len() && #[trigger] rs[a].contains(x)
}

/// The runs of `s`: none empty, one key each, keys rising from run to run,
/// and together exactly the elements of `s`.
pub open spec fn runs_facts(s: Seq<RawInterface>) -> bool {
    let r = runs(s);
    &&& forall|a: int| 0 <= a < r.len() ==> (#[trigger] r[a]).len() > 0
    &&& forall|a: int, b: int|
        0 <= a < r.len() && 0 <= b < r[a].len() ==> group_key_of(#[trigger] r[a][b]) == group_key_of(r[a][0])
    &&& forall|a: int, c: int| 0 <= a < c < r.len() ==> key_lt(gkey(#[trigger] r[a][0]), gkey(#[trigger] r[c][0]))
    &&& forall|a: int, b: int| 0 <= a < r.len() && 0 <= b < r[a].len() ==> s.contains(#[trigger] r[a][b])
    &&& forall|i: int| 0 <= i < s.len() ==> in_runs(r, #[trigger] s[i])
}

proof fn lemma_key_sorted_prefix(s: Seq<RawInterface>)
    requires
        key_sorted(s),
        s.len() > 0,
    ensures
        key_sorted(s.drop_last()),
        forall|i: int| 0 <= i < s.len() - 1 ==> !key_lt(gkey(s.last()), gkey(#[trigger] s.drop_last()[i])),
{
    let t = s.drop_last();
    assert forall|i: int, j: int| 0 <= i < j < t.len() implies !key_lt(#[trigger] gkey(t[j]), #[trigger] gkey(t[i])) by {
        assert(t[i] == s[i] && t[j] == s[j]);
    }
    assert forall|i: int| 0 <= i < s.len() - 1 implies !key_lt(gkey(s.last()), gkey(#[trigger] t[i])) by {
        assert(t[i] == s[i]);
        assert(s.last() == s[s.len() - 1]);
    }
}

#[verifier::spinoff_prover]
#[verifier::rlimit(40)]
proof fn lemma_runs_extend(s: Seq<RawInterface>)
    requires
        s.len() > 0,
        runs_facts(s.drop_last()),
        runs(s.drop_last()).len() > 0,
        group_key_of(runs(s.drop_last()).last().last()) == group_key_of(s.last()),
    ensures
        runs_facts(s),
{
    let t = s.drop_last();
    let x = s.last();
    let rt = runs(t);
    let r = runs(s);
    let l = rt.len() - 1;
    assert(r == rt.update(l, rt[l].push(x)));
    assert forall|a: int, b: int| 0 <= a < r.len() && 0 <= b < r[a].len() implies group_key_of(
        #[trigger] r[a][b],
    ) == group_key_of(r[a][0]) by {
        if a == l {
            assert(r[a][0] == rt[l][0]);
            if b < rt[l].len() {
                assert(r[a][b] == rt[l][b]);
            } else {
                assert(rt.last().last() == rt[l][rt[l].len() - 1]);
            }
        }
    }
    assert forall|a: int, c: int| 0 <= a < c < r.len() implies key_lt(gkey(#[trigger] r[a][0]), gkey(#[trigger] r[c][0])) by {
        assert(r[a][0] == rt[a][0]);
        assert(r[c][0] == rt[c][0]);
    }
    assert forall|a: int, b: int| 0 <= a < r.len() && 0 <= b < r[a].len() implies s.contains(#[trigger] r[a][b]) by {
        if a == l && b == rt[l].len() {
            assert(s[s.len() - 1] == x);
        } else {
            assert(r[a][b] == rt[a][b]);
            assert(t.contains(rt[a][b]));
            let i = choose|i: int| 0 <= i < t.len() && t[i] == rt[a][b];
            assert(s[i] == t[i]);
        }
    }
    assert forall|i: int| 0 <= i < s.len() implies in_runs(r, #[trigger] s[i]) by {
        if i == s.len() - 1 {
            assert(r[l][rt[l].len() as int] == x);
            assert(r[l].contains(x));
        } else {
            assert(s[i] == t[i]);
            assert(in_runs(rt, t[i]));
            let a = choose|a: int| 0 <= a < rt.len() && #[trigger] rt[a].contains(t[i]);
            let b = choose|b: int| 0 <= b < rt[a].len() && rt[a][b] == t[i];
            assert(r[a][b] == t[i]);
            assert(r[a].contains(t[i]));
        }
    }
}

#[verifier::spinoff_prover]
#[verifier::rlimit(40)]
proof fn lemma_runs_new(s: Seq<RawInterface>)
    requires
        s.len() > 0,
        runs_facts(s.drop_last()),
        forall|i: int| 0 <= i < s.len() - 1 ==> !key_lt(gkey(s.last()), gkey(#[trigger] s.drop_last()[i])),
        !(runs(s.drop_last()).len() > 0 && group_key_of(runs(s.drop_last()).last().last()) == group_key_of(
            s.last(),
        )),
    ensures
        runs_facts(s),
{
    let t = s.drop_last();
    let x = s.last();
    let rt = runs(t);
    let r = runs(s);
    assert(r == rt.push(seq![x]));
    let l = rt.len() as int;
    assert forall|a: int, b: int| 0 <= a < r.len() && 0 <= b < r[a].len() implies group_key_of(
        #[trigger] r[a][b],
    ) == group_key_of(r[a][0]) by {
        if a < l {
            assert(r[a] == rt[a]);
        }
    }
    if rt.len() > 0 {
        let m = rt.len() - 1;
        let last0 = rt[m][0];
        assert(rt.last().last() == rt[m][rt[m].len() - 1]);
        assert(group_key_of(rt[m][rt[m].len() - 1]) == group_key_of(last0));
        assert(t.contains(last0));
        let i0 = choose|i: int| 0 <= i < t.len() && t[i] == last0;
        assert(!key_lt(gkey(x), gkey(t[i0])));
        lemma_key_lt_total(gkey(last0), gkey(x));
        assert(gkey(last0) != gkey(x)) by {
            if gkey(last0) == gkey(x) {
                assert(gkey(last0)[0] == gkey(x)[0]);
            }
        }
        assert forall|a: int| 0 <= a < l implies key_lt(gkey(#[trigger] rt[a][0]), gkey(x)) by {
            if a < m {
                lemma_key_lt_transitive(gkey(rt[a][0]), gkey(last0), gkey(x));
            }
        }
    }
    assert forall|a: int, c: int| 0 <= a < c < r.len() implies key_lt(gkey(#[trigger] r[a][0]), gkey(#[trigger] r[c][0])) by {
        assert(r[a] == rt[a]);
        if c < l {
            assert(r[c] == rt[c]);
        } else {
            assert(r[c][0] == x);
        }
    }
    assert forall|a: int, b: int| 0 <= a < r.len() && 0 <= b < r[a].len() implies s.contains(#[trigger] r[a][b]) by {
        if a == l {
            assert(s[s.len() - 1] == x);
        } else {
            assert(r[a][b] == rt[a][b]);
            assert(t.contains(rt[a][b]));
            let i = choose|i: int| 0 <= i < t.len() && t[i] == rt[a][b];
            assert(s[i] == t[i]);
        }
    }
    assert forall|i: int| 0 <= i < s.len() implies in_runs(r, #[trigger] s[i]) by {
        if i == s.len() - 1 {
            assert(r[l][0] == x);
            assert(r[l].contains(x));
        } else {
            assert(s[i] == t[i]);
            assert(in_runs(rt, t[i]));
            let a = choose|a: int| 0 <= a < rt.len() && #[trigger] rt[a].contains(t[i]);
            assert(r[a] == rt[a]);
        }
    }
}

proof fn lemma_runs_of_sorted(s: Seq<RawInterface>)
    requires
        key_sorted(s),
    ensures
        runs_facts(s),
    decreases s.len(),
{
    if s.len() > 0 {
        lemma_key_sorted_prefix(s);
        lemma_runs_of_sorted(s.drop_last());
        if runs(s.drop_last()).len() > 0 && group_key_of(runs(s.drop_last()).last().last()) == group_key_of(s.last()) {
            lemma_runs_extend(s);
        } else {
            lemma_runs_new(s);
        }
    }
}

fn group_key_vec(raws: &Vec<RawInterface>) -> (r: Vec<Vec<Vec<char>>>)
    ensures
        r@.len() == raws@.len(),
        key_views(r@) == group_keys(raws@),
{
    let mut out: Vec<Vec<Vec<char>>> = Vec::new();
    let mut i: usize = 0;
    while i < raws.len()
        invariant
            i <= raws@.len(),
            out@.len() == i,
            forall|j: int| 0 <= j < i ==> key_view(#[trigger] out@[j]@) == seq![group_key_of(raws@[j])],
        decreases raws@.len() - i,
    {
        let k = vec![str_chars(group_key(&raws[i]).as_str())];
        assert(key_view(k@) =~= seq![group_key_of(raws@[i as int])]);
        out.push(k);
        i = i + 1;
    }
    assert(key_views(out@) =~= group_keys(raws@));
    out
}

fn device_key_vec(devices: &Vec<DiscoveredDevice>) -> (r: Vec<Vec<Vec<char>>>)
    ensures
        r@.len() == devices@.len(),
        key_views(r@) == device_keys(devices@),
{
    let mut out: Vec<Vec<Vec<char>>> = Vec::new();
    let mut i: usize = 0;
    while i < devices.len()
        invariant
            i <= devices@.len(),
            out@.len() == i,
            forall|j: int|
                0 <= j < i ==> key_view(#[trigger] out@[j]@) == seq![
                    devices@[j].info.name@,
                    devices@[j].info.id.0@,
                ],
        decreases devices@.len() - i,
    {
        let d = &devices[i];
        let k = vec![str_chars(d.info.name.as_str()), str_chars(d.info.id.0.as_str())];
        assert(key_view(k@) =~= seq![d.info.name@, d.info.id.0@]);
        out.push(k);
        i = i + 1;
    }
    assert(key_views(out@) =~= device_keys(devices@));
    out
}

/// Devices follow group keys: every interface found lands in a device, a
/// device holds only interfaces found, all with one group key, and no two
/// devices share a key.
pub proof fn law_devices_follow_group_keys(raws: Seq<RawInterface>, models: Seq<NativeModel>, r: Seq<DiscoveredDevice>)
    requires
        grouped(raws, models, r),
    ensures
        forall|k: int| 0 <= k < r.len() ==> (#[trigger] r[k]).raw_interfaces@.len() > 0,
        forall|k: int, a: int|
            0 <= k < r.len() && 0 <= a < r[k].raw_interfaces@.len() ==> group_key_of(
                #[trigger] r[k].raw_interfaces@[a],
            ) == group_key_of(r[k].raw_interfaces@[0]),
        forall|k: int, a: int|
            0 <= k < r.len() && 0 <= a < r[k].raw_interfaces@.len() ==> raws.contains(
                #[trigger] r[k].raw_interfaces@[a],
            ),
        forall|k1: int, k2: int|
            0 <= k1 < r.len() && 0 <= k2 < r.len() && k1 != k2 ==> group_key_of(
                (#[trigger] r[k1]).raw_interfaces@[0],
            ) != group_key_of((#[trigger] r[k2]).raw_interfaces@[0]),
        forall|i: int|
            0 <= i < raws.len() ==> exists|k: int|
                0 <= k < r.len() && (#[trigger] r[k]).raw_interfaces@.contains(#[trigger] raws[i]),
{
    let (g, d) = choose|g: Seq<RawInterface>, d: Seq<DiscoveredDevice>|
        {
            &&& stably_sorted(raws, group_keys(raws), g)
            &&& d.len() == runs(g).len()
            &&& forall|i: int| 0 <= i < d.len() ==> built_from(runs(g)[i], models, #[trigger] d[i])
            &&& stably_sorted(d, device_keys(d), r)
        };
    let keys = group_keys(raws);
    let p = choose|p: Seq<int>|
        is_stable_order(keys, raws.len() as int, p) && g.len() == raws.len() && forall|i: int|
            0 <= i < g.len() ==> #[trigger] g[i] == raws[p[i]];
    assert forall|i: int, j: int| 0 <= i < j < g.len() implies !key_lt(#[trigger] gkey(g[j]), #[trigger] gkey(g[i])) by {
        assert(keys[p[i]] == gkey(raws[p[i]]));
        assert(keys[p[j]] == gkey(raws[p[j]]));
    }
    lemma_runs_of_sorted(g);
    lemma_stably_sorted_same_elements(raws, keys, g);
    let rs = runs(g);
    assert forall|j: int| 0 <= j < d.len() implies {
        &&& (#[trigger] d[j]).raw_interfaces@.len() == rs[j].len()
        &&& forall|a: int| 0 <= a < d[j].raw_interfaces@.len() ==> rs[j].contains(#[trigger] d[j].raw_interfaces@[a])
        &&& forall|b: int| 0 <= b < rs[j].len() ==> d[j].raw_interfaces@.contains(#[trigger] rs[j][b])
    } by {
        assert(built_from(rs[j], models, d[j]));
        lemma_stably_sorted_same_elements(rs[j], path_keys(rs[j]), d[j].raw_interfaces@);
    }
    let q = choose|q: Seq<int>|
        is_stable_order(device_keys(d), d.len() as int, q) && r.len() == d.len() && forall|i: int|
            0 <= i < r.len() ==> #[trigger] r[i] == d[q[i]];
    // each device's interfaces share the key of its run
    assert forall|j: int, a: int| 0 <= j < d.len() && 0 <= a < d[j].raw_interfaces@.len() implies group_key_of(
        #[trigger] d[j].raw_interfaces@[a],
    ) == group_key_of(rs[j][0]) by {
        let x = d[j].raw_interfaces@[a];
        assert(rs[j].contains(x));
        let b = choose|b: int| 0 <= b < rs[j].len() && rs[j][b] == x;
        assert(group_key_of(rs[j][b]) == group_key_of(rs[j][0]));
    }
    assert forall|k: int| 0 <= k < r.len() implies (#[trigger] r[k]).raw_interfaces@.len() > 0 by {
        assert(r[k] == d[q[k]]);
        assert(rs[q[k]].len() > 0);
    }
    assert forall|k: int, a: int| 0 <= k < r.len() && 0 <= a < r[k].raw_interfaces@.len() implies group_key_of(
        #[trigger] r[k].raw_interfaces@[a],
    ) == group_key_of(r[k].raw_interfaces@[0]) by {
        let j = q[k];
        assert(r[k] == d[j]);
        assert(group_key_of(d[j].raw_interfaces@[a]) == group_key_of(rs[j][0]));
        assert(group_key_of(d[j].raw_interfaces@[0]) == group_key_of(rs[j][0]));
    }
    assert forall|k: int, a: int| 0 <= k < r.len() && 0 <= a < r[k].raw_interfaces@.len() implies raws.contains(
        #[trigger] r[k].raw_interfaces@[a],
    ) by {
        let j = q[k];
        assert(r[k] == d[j]);
        let x = d[j].raw_interfaces@[a];
        assert(rs[j].contains(x));
        let b = choose|b: int| 0 <= b < rs[j].len() && rs[j][b] == x;
        assert(g.contains(rs[j][b]));
        let m = choose|m: int| 0 <= m < g.len() && g[m] == x;
        assert(raws.contains(g[m]));
    }
    assert forall|k1: int, k2: int| 0 <= k1 < r.len() && 0 <= k2 < r.len() && k1 != k2 implies group_key_of(
        (#[trigger] r[k1]).raw_interfaces@[0],
    ) != group_key_of((#[trigger] r[k2]).raw_interfaces@[0]) by {
        let j1 = q[k1];
        let j2 = q[k2];
        assert(r[k1] == d[j1] && r[k2] == d[j2]);
        assert(j1 != j2);
        assert(group_key_of(d[j1].raw_interfaces@[0]) == group_key_of(rs[j1][0]));
        assert(group_key_of(d[j2].raw_interfaces@[0]) == group_key_of(rs[j2][0]));
        if group_key_of(rs[j1][0]) == group_key_of(rs[j2][0]) {
            assert(gkey(rs[j1][0]) == gkey(rs[j2][0]));
            lemma_key_lt_irreflexive(gkey(rs[j1][0]));
            if j1 < j2 {
                assert(key_lt(gkey(rs[j1][0]), gkey(rs[j2][0])));
            } else {
                assert(key_lt(gkey(rs[j2][0]), gkey(rs[j1][0])));
            }
        }
    }
    assert forall|i: int| 0 <= i < raws.len() implies exists|k: int|
        0 <= k < r.len() && (#[trigger] r[k]).raw_interfaces@.contains(#[trigger] raws[i]) by {
        assert(g.contains(raws[i]));
        let m = choose|m: int| 0 <= m < g.len() && g[m] == raws[i];
        assert(in_runs(rs, g[m]));
        let j = choose|j: int| 0 <= j < rs.len() && #[trigger] rs[j].contains(g[m]);
        let b = choose|b: int| 0 <= b < rs[j].len() && rs[j][b] == g[m];
        assert(d[j].raw_interfaces@.contains(rs[j][b]));
        assert(covers(q, j));
        let k = choose|k: int| 0 <= k < q.len() && #[trigger] q[k] == j;
        assert(r[k] == d[j]);
    }
}

/// Groups interfaces into devices (see `grouped`).
pub fn group_interfaces(raws: Vec<RawInterface>, models: &[NativeModel]) -> (r: Vec<DiscoveredDevice>)
    ensures
        grouped(raws@, models@, r@),
{
    let ghost raws0 = raws@;
    let keys = group_key_vec(&raws);
    let g = stable_sort_by_keys(raws, keys);
    let ghost g0 = g@;
    let n = g.len();
    let mut rest = g;
    let mut devices: Vec<DiscoveredDevice> = Vec::new();
    let mut current: Vec<RawInterface> = Vec::new();
    let mut current_key: Vec<char> = Vec::new();
    let ghost mut closed: Seq<Seq<RawInterface>> = Seq::empty();
    let mut i: usize = 0;
    assert(g0.take(0) == Seq::<RawInterface>::empty());
    while i < n
        invariant
            n == g0.len(),
            i <= n,
            rest@ == g0.skip(i as int),
            (i == 0) == (current@.len() == 0),
            current@.len() > 0 ==> current_key@ == group_key_of(current@.last()),
            runs(g0.take(i as int)) == (if i == 0 {
                closed
            } else {
                closed.push(current@)
            }),
            devices@.len() == closed.len(),
            forall|k: int| 0 <= k < closed.len() ==> built_from(closed[k], models@, #[trigger] devices@[k]),
        decreases n - i,
    {
        assert(rest@.len() > 0);
        let item = rest.remove(0);
        assert(item == g0[i as int]);
        assert(rest@ == g0.skip(i as int + 1));
        assert(g0.take(i as int + 1).drop_last() == g0.take(i as int));
        assert(g0.take(i as int + 1).last() == item);
        let key = str_chars(group_key(&item).as_str());
        let ghost prev = runs(g0.take(i as int));
        let ghost prev_current = current@;
        if current.len() > 0 && crate::text::chars_eq(&key, &current_key) {
            current.push(item);
            proof {
                assert(prev == closed.push(prev_current));
                assert(prev.last() == prev_current);
                assert(runs(g0.take(i as int + 1)) == prev.update(
                    prev.len() - 1,
                    prev.last().push(item),
                ));
                assert(runs(g0.take(i as int + 1)) =~= closed.push(current@));
            }
        } else {
            if current.len() > 0 {
                let done = current;
                proof {
                    closed = closed.push(done@);
                }
                devices.push(build_device(done, models));
            }
            current = vec![item];
            current_key = key;
            assert(current@.last() == item);
            proof {
                assert(current@ =~= seq![item]);
                if i > 0 {
                    assert(closed =~= prev);
                } else {
                    assert(prev =~= Seq::<Seq<RawInterface>>::empty());
                    assert(closed =~= prev);
                }
                assert(runs(g0.take(i as int + 1)) == prev.push(seq![item]));
                assert(runs(g0.take(i as int + 1)) =~= closed.push(current@));
            }
        }
        i = i + 1;
    }
    if current.len() > 0 {
        let done = current;
        proof {
            closed = closed.push(done@);
        }
        devices.push(build_device(done, models));
    }
    assert(g0.take(n as int) == g0);
    assert(runs(g0) == closed);
    let device_order = device_key_vec(&devices);
    let ghost d = devices@;
    let out = stable_sort_by_keys(devices, device_order);
    assert(stably_sorted(raws0, group_keys(raws0), g0));
    assert(forall|k: int| 0 <= k < d.len() ==> built_from(runs(g0)[k], models@, #[trigger] d[k]));
    out
}

// ------------------------------------------------------------ diagnostics

/// `rep` is the diagnostic line of interface `raw` of device `d`; writes are
/// protected where the device has no verified native driver.
pub open spec fn is_report_of(rep: DiagnosticReport, d: DiscoveredDevice, raw: RawInterface) -> bool {
    &&& rep.device_id.0@ == d.info.id.0@
    &&& rep.source == raw.source
    &&& rep.path@ == raw.path@
    &&& rep.vendor_id == nonzero(raw.vendor_id)
    &&& rep.product_id == nonzero(raw.product_id)
    &&& opt_view(rep.manufacturer) == opt_view(raw.manufacturer)
    &&& opt_view(rep.product) == opt_view(raw.product)
    &&& opt_view(rep.serial) == opt_view(raw.serial)
    &&& rep.interface_number == raw.interface_number
    &&& rep.usage_page == raw.usage_page
    &&& rep.usage == raw.usage
    &&& rep.audio_node_id == raw.audio_node_id
    &&& opt_view(rep.usb_parent) == opt_view(raw.usb_parent)
    &&& opt_view(rep.protocol_match) == opt_view(d.info.protocol)
    &&& rep.support_level == d.info.support_level
    &&& rep.write_protected == d.info.protocol is None
}

pub open spec fn at_device(di: int) -> spec_fn(int) -> (int, int) {
    |j: int| (di, j)
}

/// Every (device, interface) position, device by device.
pub open spec fn report_sources(devices: Seq<DiscoveredDevice>) -> Seq<(int, int)>
    decreases devices.len(),
{
    if devices.len() == 0 {
        Seq::empty()
    } else {
        report_sources(devices.drop_last()) + Seq::new(
            devices.last().raw_interfaces@.len(),
            at_device(devices.len() - 1),
        )
    }
}

/// Two-text keys that order reports by device id, then path.
pub open spec fn report_keys(reps: Seq<DiagnosticReport>) -> Seq<Seq<Seq<char>>> {
    reps.map_values(|r: DiagnosticReport| seq![r.device_id.0@, r.path@])
}

/// Report `k` of `flat` is that of the interface `src[k]` names.
pub open spec fn report_at(devices: Seq<DiscoveredDevice>, src: Seq<(int, int)>, flat: Seq<DiagnosticReport>, k: int) -> bool {
    let d = devices[src[k].0];
    &&& 0 <= src[k].0 < devices.len()
    &&& 0 <= src[k].1 < d.raw_interfaces@.len()
    &&& is_report_of(flat[k], d, d.raw_interfaces@[src[k].1])
}

/// `flat` holds one report per interface, device by device.
pub open spec fn reports_in_order(devices: Seq<DiscoveredDevice>, src: Seq<(int, int)>, flat: Seq<DiagnosticReport>) -> bool {
    &&& flat.len() == src.len()
    &&& forall|k: int| 0 <= k < flat.len() ==> #[trigger] report_at(devices, src, flat, k)
}

fn report_of(d: &DiscoveredDevice, raw: &RawInterface) -> (r: DiagnosticReport)
    ensures
        is_report_of(r, *d, *raw),
{
    DiagnosticReport {
        device_id: DeviceId(copy_string(&d.info.id.0)),
        source: raw.source,
        path: copy_string(&raw.path),
        vendor_id: if raw.vendor_id != 0 {
            Some(raw.vendor_id)
        } else {
            None
        },
        product_id: if raw.product_id != 0 {
            Some(raw.product_id)
        } else {
            None
        },
        manufacturer: copy_opt(&raw.manufacturer),
        product: copy_opt(&raw.product),
        serial: copy_opt(&raw.serial),
        interface_number: raw.interface_number,
        usage_page: raw.usage_page,
        usage: raw.usage,
        audio_node_id: raw.audio_node_id,
        usb_parent: copy_opt(&raw.usb_parent),
        protocol_match: copy_opt(&d.info.protocol),
        support_level: d.info.support_level,
        write_protected: d.info.protocol.is_none(),
    }
}

fn report_key_vec(reps: &Vec<DiagnosticReport>) -> (r: Vec<Vec<Vec<char>>>)
    ensures
        r@.len() == reps@.len(),
        key_views(r@) == report_keys(reps@),
{
    let mut out: Vec<Vec<Vec<char>>> = Vec::new();
    let mut i: usize = 0;
    while i < reps.len()
        invariant
            i <= reps@.len(),
            out@.len() == i,
            forall|j: int|
                0 <= j < i ==> key_view(#[trigger] out@[j]@) == seq![reps@[j].device_id.0@, reps@[j].path@],
        decreases reps@.len() - i,
    {
        let k = vec![str_chars(reps[i].device_id.0.as_str()), str_chars(reps[i].path.as_str())];
        assert(key_view(k@) =~= seq![reps@[i as int].device_id.0@, reps@[i as int].path@]);
        out.push(k);
        i = i + 1;
    }
    assert(key_views(out@) =~= report_keys(reps@));
    out
}

/// One diagnostic report per raw interface of each device, ordered by device
/// id, then path (stable).
pub fn doctor_reports(devices: &[DiscoveredDevice]) -> (r: Vec<DiagnosticReport>)
    ensures
        exists|flat: Seq<DiagnosticReport>|
            reports_in_order(devices@, report_sources(devices@), flat) && stably_sorted(
                flat,
                report_keys(flat),
                r@,
            ),
{
    let mut flat: Vec<DiagnosticReport> = Vec::new();
    let mut di: usize = 0;
    assert(devices@.take(0) == Seq::<DiscoveredDevice>::empty());
    while di < devices.len()
        invariant
            di <= devices@.len(),
            reports_in_order(devices@, report_sources(devices@.take(di as int)), flat@),
        decreases devices@.len() - di,
    {
        let d = &devices[di];
        let ghost before = report_sources(devices@.take(di as int));
        let mut ri: usize = 0;
        while ri < d.raw_interfaces.len()
            invariant
                di < devices@.len(),
                *d == devices@[di as int],
                ri <= d.raw_interfaces@.len(),
                reports_in_order(
                    devices@,
                    before + Seq::new(ri as nat, at_device(di as int)),
                    flat@,
                ),
            decreases d.raw_interfaces@.len() - ri,
        {
            let ghost old_flat = flat@;
            flat.push(report_of(d, &d.raw_interfaces[ri]));
            proof {
                let src = before + Seq::new(ri as nat + 1, at_device(di as int));
                let old_src = before + Seq::new(ri as nat, at_device(di as int));
                assert forall|k: int| 0 <= k < flat@.len() implies #[trigger] report_at(
                    devices@,
                    src,
                    flat@,
                    k,
                ) by {
                    if k < old_flat.len() {
                        assert(src[k] == old_src[k]);
                        assert(flat@[k] == old_flat[k]);
                        assert(report_at(devices@, old_src, old_flat, k));
                    } else {
                        assert(src[k] == (di as int, ri as int));
                    }
                }
                assert(flat@.len() == src.len());
                assert(reports_in_order(devices@, src, flat@));
            }
            ri = ri + 1;
        }
        proof {
            let t = devices@.take(di as int + 1);
            assert(t.drop_last() == devices@.take(di as int));
            assert(t.last() == devices@[di as int]);
            assert(report_sources(t) =~= before + Seq::new(
                d.raw_interfaces@.len(),
                at_device(di as int),
            ));
        }
        di = di + 1;
    }
    assert(devices@.take(devices@.len() as int) == devices@);
    let keys = report_key_vec(&flat);
    let ghost f = flat@;
    let out = stable_sort_by_keys(flat, keys);
    assert(reports_in_order(devices@, report_sources(devices@), f));
    out
}

// ------------------------------------------------------------ batteries

/// The serial number a battery reports, trimmed, if not blank.
pub open spec fn battery_serial(b: BatteryDescriptor) -> Option<Seq<char>> {
    match opt_view(b.serial) {
        Some(s) => if trim(s).len() > 0 {
            Some(trim(s))
        } else {
            None
        },
        None => None,
    }
}

/// The battery's model name reduced to lower-case letters and digits.
pub open spec fn battery_model(b: BatteryDescriptor) -> Seq<char> {
    match opt_view(b.model_name) {
        Some(m) => alnum_lower(m),
        None => Seq::empty(),
    }
}

/// A battery belongs to a device whose serial number it names (ignoring
/// ASCII case and the device serial's surrounding blanks), or whose name
/// and the battery's model name, each reduced to lower-case letters and
/// digits, are non-empty and one contains the other.
pub open spec fn battery_matches(b: BatteryDescriptor, d: DiscoveredDevice) -> bool {
    let model = battery_model(b);
    let name = alnum_lower(d.info.name@);
    let serial_match = match (battery_serial(b), opt_view(d.info.serial)) {
        (Some(l), Some(r)) => lowercase(l) == lowercase(trim(r)),
        _ => false,
    };
    serial_match || (model.len() > 0 && name.len() > 0 && (contains(model, name) || contains(
        name,
        model,
    )))
}

pub open spec fn matches_battery(b: BatteryDescriptor) -> spec_fn(DiscoveredDevice) -> bool {
    |d: DiscoveredDevice| battery_matches(b, d)
}

/// The device a battery is attached to: the first it belongs to.
pub open spec fn battery_target(devices: Seq<DiscoveredDevice>, b: BatteryDescriptor) -> Option<int> {
    first_index(devices, matches_battery(b))
}

/// The last battery attached to device `i`.
pub open spec fn last_battery_for(devices: Seq<DiscoveredDevice>, batteries: Seq<BatteryDescriptor>, i: int) -> Option<int>
    decreases batteries.len(),
{
    if batteries.len() == 0 {
        None
    } else if battery_target(devices, batteries.last()) == Some(i) {
        Some(batteries.len() - 1)
    } else {
        last_battery_for(devices, batteries.drop_last(), i)
    }
}

proof fn lemma_last_battery_bound(devices: Seq<DiscoveredDevice>, batteries: Seq<BatteryDescriptor>, i: int)
    ensures
        last_battery_for(devices, batteries, i) matches Some(j) ==> 0 <= j < batteries.len(),
    decreases batteries.len(),
{
    if batteries.len() > 0 {
        lemma_last_battery_bound(devices, batteries.drop_last(), i);
    }
}

/// `after` is `before` with each battery attached: the device takes the
/// capacity and status of the last battery attached to it and gains the
/// battery-status capability; nothing else changes.
pub open spec fn batteries_attached(
    before: Seq<DiscoveredDevice>,
    batteries: Seq<BatteryDescriptor>,
    after: Seq<DiscoveredDevice>,
) -> bool {
    &&& after.len() == before.len()
    &&& forall|i: int|
        0 <= i < before.len() ==> {
            let a = #[trigger] after[i];
            let b = before[i];
            &&& a.raw_interfaces == b.raw_interfaces
            &&& a.info == DeviceInfo {
                battery_percent: a.info.battery_percent,
                battery_state: a.info.battery_state,
                generic_capabilities: a.info.generic_capabilities,
                ..b.info
            }
            &&& match last_battery_for(before, batteries, i) {
                Some(j) => {
                    &&& a.info.battery_percent == batteries[j].capacity
                    &&& opt_view(a.info.battery_state) == opt_view(batteries[j].status)
                    &&& a.info.generic_capabilities@ == (if b.info.generic_capabilities@.contains(
                        Capability::BatteryStatus,
                    ) {
                        b.info.generic_capabilities@
                    } else {
                        b.info.generic_capabilities@.push(Capability::BatteryStatus)
                    })
                },
                None => {
                    &&& a.info.battery_percent == b.info.battery_percent
                    &&& a.info.battery_state == b.info.battery_state
                    &&& a.info.generic_capabilities == b.info.generic_capabilities
                },
            }
        }
}

fn battery_matches_exec(model: &Vec<char>, serial: &Option<Vec<char>>, d: &DiscoveredDevice) -> (r: bool)
    ensures
        forall|b: BatteryDescriptor|
            model@ == battery_model(b) && (match serial {
                Some(s) => battery_serial(b) == Some(s@),
                None => battery_serial(b) is None,
            }) ==> r == battery_matches(b, *d),
{
    let serial_match = match (serial, &d.info.serial) {
        (Some(l), Some(r)) => chars_eq(&to_lowercase(l), &to_lowercase(&trim_ws(&str_chars(r.as_str())))),
        _ => false,
    };
    let name = normalize_alnum(&str_chars(d.info.name.as_str()));
    serial_match || (model.len() > 0 && name.len() > 0 && (contains_sub(model, &name) || contains_sub(
        &name,
        model,
    )))
}

fn contains_battery_status(v: &Vec<Capability>) -> (r: bool)
    ensures
        r == v@.contains(Capability::BatteryStatus),
{
    let mut i: usize = 0;
    while i < v.len()
        invariant
            i <= v@.len(),
            forall|j: int| 0 <= j < i ==> #[trigger] v@[j] != Capability::BatteryStatus,
        decreases v@.len() - i,
    {
        if v[i] == Capability::BatteryStatus {
            assert(v@[i as int] == Capability::BatteryStatus);
            return true;
        }
        i = i + 1;
    }
    false
}

/// Attaches the batteries the power-supply class lists to the devices they
/// belong to (see `batteries_attached`).
pub fn attach_battery_metadata(devices: &mut Vec<DiscoveredDevice>, batteries: &[BatteryDescriptor])
    ensures
        batteries_attached(old(devices)@, batteries@, final(devices)@),
{
    let ghost before = devices@;
    let mut j: usize = 0;
    assert(batteries@.take(0) == Seq::<BatteryDescriptor>::empty());
    while j < batteries.len()
        invariant
            j <= batteries@.len(),
            batteries_attached(before, batteries@.take(j as int), devices@),
        decreases batteries@.len() - j,
    {
        let b = &batteries[j];
        let model = match &b.model_name {
            Some(m) => normalize_alnum(&str_chars(m.as_str())),
            None => Vec::new(),
        };
        let serial = match &b.serial {
            Some(s) => {
                let t = trim_ws(&str_chars(s.as_str()));
                if t.len() > 0 {
                    Some(t)
                } else {
                    None
                }
            },
            None => None,
        };
        let mut k: usize = 0;
        while k < devices.len()
            invariant
                k <= devices@.len(),
                devices@.len() == before.len(),
                model@ == battery_model(*b),
                match serial {
                    Some(s) => battery_serial(*b) == Some(s@),
                    None => battery_serial(*b) is None,
                },
                forall|i: int| 0 <= i < before.len() ==> (#[trigger] devices@[i]).info.name == before[i].info.name
                    && devices@[i].info.serial == before[i].info.serial,
                forall|i: int| 0 <= i < k ==> !matches_battery(*b)(#[trigger] before[i]),
            ensures
                k <= devices@.len(),
                forall|i: int| 0 <= i < k ==> !matches_battery(*b)(#[trigger] before[i]),
                k < devices@.len() ==> matches_battery(*b)(before[k as int]),
            decreases devices@.len() - k,
        {
            if battery_matches_exec(&model, &serial, &devices[k]) {
                break;
            }
            k = k + 1;
        }
        proof {
            lemma_first_index_is(before, matches_battery(*b), k as int);
        }
        let ghost mid = devices@;
        if k < devices.len() {
            assert(battery_target(before, *b) == Some(k as int));
            let mut d = devices.remove(k);
            d.info.battery_percent = b.capacity;
            d.info.battery_state = copy_opt(&b.status);
            if !contains_battery_status(&d.info.generic_capabilities) {
                d.info.generic_capabilities.push(Capability::BatteryStatus);
            }
            devices.insert(k, d);
            assert(forall|i: int| 0 <= i < mid.len() && i != k ==> devices@[i] == mid[i]);
        }
        proof {
            let t = batteries@.take(j as int + 1);
            assert(t.drop_last() == batteries@.take(j as int));
            assert(t.last() == *b);
            assert forall|i: int| 0 <= i < before.len() implies #[trigger] last_battery_for(before, t, i)
                == (if battery_target(before, *b) == Some(i) {
                Some(j as int)
            } else {
                last_battery_for(before, batteries@.take(j as int), i)
            }) by {}
            assert(batteries_attached(before, t, devices@)) by {
                assert forall|i: int| 0 <= i < before.len() implies {
                    let a = #[trigger] devices@[i];
                    let b0 = before[i];
                    &&& a.raw_interfaces == b0.raw_interfaces
                    &&& a.info == DeviceInfo {
                        battery_percent: a.info.battery_percent,
                        battery_state: a.info.battery_state,
                        generic_capabilities: a.info.generic_capabilities,
                        ..b0.info
                    }
                    &&& match last_battery_for(before, t, i) {
                        Some(jj) => {
                            &&& a.info.battery_percent == t[jj].capacity
                            &&& opt_view(a.info.battery_state) == opt_view(t[jj].status)
                            &&& a.info.generic_capabilities@ == (if b0.info.generic_capabilities@.contains(
                                Capability::BatteryStatus,
                            ) {
                                b0.info.generic_capabilities@
                            } else {
                                b0.info.generic_capabilities@.push(Capability::BatteryStatus)
                            })
                        },
                        None => {
                            &&& a.info.battery_percent == b0.info.battery_percent
                            &&& a.info.battery_state == b0.info.battery_state
                            &&& a.info.generic_capabilities == b0.info.generic_capabilities
                        },
                    }
                } by {
                    let prev = last_battery_for(before, batteries@.take(j as int), i);
                    lemma_last_battery_bound(before, batteries@.take(j as int), i);
                    if let Some(jj) = prev {
                        assert(batteries@.take(j as int)[jj] == t[jj]);
                    }
                    if i == k && k < before.len() {
                        let gc = before[i].info.generic_capabilities@;
                        assert(gc.push(Capability::BatteryStatus)[gc.len() as int]
                            == Capability::BatteryStatus);
                    } else {
                        assert(devices@[i] == mid[i]);
                    }
                }
            }
        }
        j = j + 1;
    }
    assert(batteries@.take(batteries@.len() as int) == batteries@);
}


// ------------------------------------------------------------ discovery

/// The message when neither HID nor USB enumeration worked.
pub open spec fn all_failed_text(hid: DeviceError, usb: DeviceError) -> Seq<char> {
    "all discovery sources failed; HID: "@ + hid.text() + "; USB: "@ + usb.text()
}

/// `raws` are the records of the HID interfaces, then of the USB devices,
/// of the enumerations that worked.
pub open spec fn raws_found(
    hid: Result<Vec<HidDescriptor>, DeviceError>,
    usb: Result<Vec<UsbDescriptor>, DeviceError>,
    raws: Seq<RawInterface>,
) -> bool {
    let h = match hid {
        Ok(v) => v@,
        Err(_) => Seq::empty(),
    };
    let u = match usb {
        Ok(v) => v@,
        Err(_) => Seq::empty(),
    };
    &&& raws.len() == h.len() + u.len()
    &&& forall|i: int| 0 <= i < h.len() ==> is_hid_raw(#[trigger] raws[i], h[i])
    &&& forall|i: int| 0 <= i < u.len() ==> is_usb_raw(#[trigger] raws[h.len() + i], u[i])
}

/// The devices that what the HID, USB and power-supply enumerations found
/// make: an error only when both HID and USB failed; else the interfaces
/// grouped into devices, with the batteries attached when the power-supply
/// enumeration worked.
pub fn discover_from(
    hid: Result<Vec<HidDescriptor>, DeviceError>,
    usb: Result<Vec<UsbDescriptor>, DeviceError>,
    batteries: Result<Vec<BatteryDescriptor>, DeviceError>,
    models: &[NativeModel],
) -> (r: Result<Vec<DiscoveredDevice>, DeviceError>)
    ensures
        (hid is Err && usb is Err) <==> r is Err,
        r matches Err(e) ==> e matches DeviceError::Usb(m) && m@ == all_failed_text(
            hid->Err_0,
            usb->Err_0,
        ),
        r matches Ok(devices) ==> exists|raws: Seq<RawInterface>, g: Seq<DiscoveredDevice>|
            {
                &&& raws_found(hid, usb, raws)
                &&& grouped(raws, models@, g)
                &&& match batteries {
                    Ok(b) => batteries_attached(g, b@, devices@),
                    Err(_) => devices@ == g,
                }
            },
{
    let ghost hid0 = hid;
    let ghost usb0 = usb;
    if hid.is_err() && usb.is_err() {
        let h = match &hid {
            Err(e) => e.message(),
            Ok(_) => String::new(),
        };
        let u = match &usb {
            Err(e) => e.message(),
            Ok(_) => String::new(),
        };
        let text = concat(
            &concat(
                &concat(&str_chars("all discovery sources failed; HID: "), &str_chars(h.as_str())),
                &str_chars("; USB: "),
            ),
            &str_chars(u.as_str()),
        );
        return Err(DeviceError::Usb(string_from(&text)));
    }
    let hid_list = match hid {
        Ok(v) => v,
        Err(_) => Vec::new(),
    };
    let usb_list = match usb {
        Ok(v) => v,
        Err(_) => Vec::new(),
    };
    let ghost h = hid_list@;
    let ghost u = usb_list@;
    let mut raws: Vec<RawInterface> = Vec::new();
    let mut rest_h = hid_list;
    let mut i: usize = 0;
    let nh = rest_h.len();
    while i < nh
        invariant
            nh == h.len(),
            i <= nh,
            rest_h@ == h.skip(i as int),
            raws@.len() == i,
            forall|k: int| 0 <= k < i ==> is_hid_raw(#[trigger] raws@[k], h[k]),
        decreases nh - i,
    {
        assert(rest_h@.len() > 0);
        let d = rest_h.remove(0);
        assert(d == h[i as int]);
        assert(rest_h@ == h.skip(i as int + 1));
        raws.push(raw_from_hid(d));
        i = i + 1;
    }
    let mut rest_u = usb_list;
    let mut j: usize = 0;
    let nu = rest_u.len();
    while j < nu
        invariant
            nu == u.len(),
            j <= nu,
            rest_u@ == u.skip(j as int),
            raws@.len() == h.len() + j,
            forall|k: int| 0 <= k < h.len() ==> is_hid_raw(#[trigger] raws@[k], h[k]),
            forall|k: int| 0 <= k < j ==> is_usb_raw(#[trigger] raws@[h.len() + k], u[k]),
        decreases nu - j,
    {
        assert(rest_u@.len() > 0);
        let d = rest_u.remove(0);
        assert(d == u[j as int]);
        assert(rest_u@ == u.skip(j as int + 1));
        raws.push(raw_from_usb(d));
        j = j + 1;
    }
    let ghost r0 = raws@;
    assert(raws_found(hid0, usb0, r0));
    let mut devices = group_interfaces(raws, models);
    let ghost g = devices@;
    match &batteries {
        Ok(b) => {
            attach_battery_metadata(&mut devices, b);
        },
        Err(_) => {},
    }
    Ok(devices)
}

// ------------------------------------------------------------ devices

/// The devices whose family is HyperX.
pub fn hyperx_indices(devices: &[DeviceInfo]) -> (r: Vec<usize>)
    ensures
        forall|k: int| 0 <= k < r@.len() ==> r@[k] < devices@.len() && (#[trigger] devices@[r@[k] as int]).vendor_family is HyperX,
        forall|i: int| 0 <= i < devices@.len() && (#[trigger] devices@[i]).vendor_family is HyperX ==> r@.contains(i as usize),
        forall|a: int, b: int| 0 <= a < b < r@.len() ==> r@[a] < r@[b],
{
    let mut out: Vec<usize> = Vec::new();
    let mut i: usize = 0;
    while i < devices.len()
        invariant
            i <= devices@.len(),
            forall|k: int| 0 <= k < out@.len() ==> #[trigger] out@[k] < i,
            forall|k: int| 0 <= k < out@.len() ==> (#[trigger] devices@[out@[k] as int]).vendor_family is HyperX,
            forall|j: int| 0 <= j < i && (#[trigger] devices@[j]).vendor_family is HyperX ==> out@.contains(j as usize),
            forall|a: int, b: int| 0 <= a < b < out@.len() ==> out@[a] < out@[b],
        decreases devices@.len() - i,
    {
        if devices[i].is_hyperx() {
            let ghost before = out@;
            out.push(i);
            assert forall|a: int, b: int| 0 <= a < b < out@.len() implies out@[a] < out@[b] by {
                if b == out@.len() - 1 {
                    assert(before[a] < i);
                } else {
                    assert(before[a] < before[b]);
                }
            }
            assert forall|j: int| 0 <= j < i + 1 && (#[trigger] devices@[j]).vendor_family is HyperX implies out@.contains(j as usize) by {
                if j < i {
                    assert(before.contains(j as usize));
                    let k = choose|k: int| 0 <= k < before.len() && before[k] == j as usize;
                    assert(out@[k] == j as usize);
                } else {
                    assert(out@[out@.len() - 1] == j as usize);
                }
            }
        }
        i = i + 1;
    }
    out
}

pub open spec fn is_hyperx_device() -> spec_fn(DiscoveredDevice) -> bool {
    |d: DiscoveredDevice| d.info.vendor_family is HyperX
}

/// The HyperX devices, in order.
pub fn hyperx_devices(devices: Vec<DiscoveredDevice>) -> (r: Vec<DiscoveredDevice>)
    ensures
        r@ == devices@.filter(is_hyperx_device()),
{
    let ghost all = devices@;
    let n = devices.len();
    let mut rest = devices;
    let mut out: Vec<DiscoveredDevice> = Vec::new();
    let mut i: usize = 0;
    assert(all.take(0).filter(is_hyperx_device()) == Seq::<DiscoveredDevice>::empty());
    while i < n
        invariant
            n == all.len(),
            i <= n,
            rest@ == all.skip(i as int),
            out@ == all.take(i as int).filter(is_hyperx_device()),
        decreases n - i,
    {
        assert(rest@.len() > 0);
        let d = rest.remove(0);
        assert(d == all[i as int]);
        assert(rest@ == all.skip(i as int + 1));
        assert(all.take(i as int + 1).drop_last() == all.take(i as int));
        assert(all.take(i as int + 1).last() == d);
        let ghost f = is_hyperx_device();
        proof {
            reveal(Seq::filter);
        }
        assert(all.take(i as int + 1).filter(f) == (if f(d) {
            all.take(i as int).filter(f).push(d)
        } else {
            all.take(i as int).filter(f)
        }));
        if d.info.is_hyperx() {
            out.push(d);
        }
        i = i + 1;
    }
    assert(all.take(n as int) == all);
    out
}

/// A raw vendor write needs a capability the verified native driver offers.
pub fn ensure_write_allowed(info: &DeviceInfo, capability: Capability) -> (r: Result<(), ForgeHxError>)
    ensures
        r is Ok <==> info.spec_supports_vendor(capability),
        r is Err ==> r == Err::<(), ForgeHxError>(ForgeHxError::Unsupported(capability)),
{
    if !info.supports_vendor(capability) {
        return Err(ForgeHxError::Unsupported(capability));
    }
    Ok(())
}


/// The class codes a USB device reports: its device class when that is not
/// zero (zero defers to the interfaces), and each interface class, in
/// ascending order without repeats.
pub fn usb_class_codes(device_class: Option<u8>, interface_classes: &[u8]) -> (r: Vec<u8>)
    ensures
        forall|i: int, j: int| 0 <= i < j < r@.len() ==> r@[i] < r@[j],
        forall|c: u8|
            r@.contains(c) <==> ((device_class == Some(c) && c != 0) || interface_classes@.contains(c)),
{
    let mut out: Vec<u8> = Vec::new();
    let mut c: u16 = 0;
    while c < 256
        invariant
            c <= 256,
            forall|i: int, j: int| 0 <= i < j < out@.len() ==> out@[i] < out@[j],
            forall|i: int| 0 <= i < out@.len() ==> (#[trigger] out@[i]) < c,
            forall|x: u8|
                x < c ==> (out@.contains(x) <==> ((device_class == Some(x) && x != 0)
                    || interface_classes@.contains(x))),
        decreases 256 - c,
    {
        let code = c as u8;
        let mut present = match device_class {
            Some(d) => d == code && code != 0,
            None => false,
        };
        let mut k: usize = 0;
        while k < interface_classes.len() && !present
            invariant
                k <= interface_classes@.len(),
                present ==> interface_classes@.contains(code) || (device_class == Some(code)
                    && code != 0),
                !present ==> !(device_class == Some(code) && code != 0),
                !present ==> forall|j: int| 0 <= j < k ==> interface_classes@[j] != code,
            decreases interface_classes@.len() - k,
        {
            if interface_classes[k] == code {
                present = true;
            }
            k = k + 1;
        }
        let ghost before = out@;
        if present {
            out.push(code);
        }
        assert forall|x: u8| x < c + 1 implies (out@.contains(x) <==> ((device_class == Some(x)
            && x != 0) || interface_classes@.contains(x))) by {
            if x == code {
                if !present {
                    assert(!before.contains(x));
                    if interface_classes@.contains(x) {
                        let j = choose|j: int| 0 <= j < interface_classes@.len() && interface_classes@[j] == x;
                        assert(j < k);
                    }
                } else {
                    assert(out@[out@.len() - 1] == x);
                }
            } else {
                assert(x < c);
                if out@.contains(x) {
                    let j = choose|j: int| 0 <= j < out@.len() && out@[j] == x;
                    if j < before.len() {
                        assert(before[j] == x);
                    }
                }
                if before.contains(x) {
                    let j = choose|j: int| 0 <= j < before.len() && before[j] == x;
                    assert(out@[j] == x);
                }
            }
        }
        c = c + 1;
    }
    out
}

/// The order USB devices are listed in: by their sysfs name.
pub open spec fn usb_keys(ds: Seq<UsbDescriptor>) -> Seq<Seq<Seq<char>>> {
    Seq::new(ds.len(), |i: int| seq![ds[i].usb_parent@])
}

/// `descriptors` in the order of their sysfs names, ties kept as found.
pub fn sort_usb_descriptors(descriptors: Vec<UsbDescriptor>) -> (r: Vec<UsbDescriptor>)
    ensures
        stably_sorted(descriptors@, usb_keys(descriptors@), r@),
{
    let mut keys: Vec<Vec<Vec<char>>> = Vec::new();
    let mut i: usize = 0;
    while i < descriptors.len()
        invariant
            i <= descriptors@.len(),
            keys@.len() == i,
            forall|j: int|
                0 <= j < i ==> key_view(#[trigger] keys@[j]@) == seq![descriptors@[j].usb_parent@],
        decreases descriptors@.len() - i,
    {
        let k = vec![str_chars(descriptors[i].usb_parent.as_str())];
        assert(key_view(k@) =~= seq![descriptors@[i as int].usb_parent@]);
        keys.push(k);
        i = i + 1;
    }
    assert(key_views(keys@) =~= usb_keys(descriptors@));
    stable_sort_by_keys(descriptors, keys)
}

/// The order batteries are listed in: by their name.
pub open spec fn battery_keys(bs: Seq<BatteryDescriptor>) -> Seq<Seq<Seq<char>>> {
    Seq::new(bs.len(), |i: int| seq![bs[i].name@])
}

/// `batteries` in the order of their names, ties kept as found.
pub fn sort_batteries(batteries: Vec<BatteryDescriptor>) -> (r: Vec<BatteryDescriptor>)
    ensures
        stably_sorted(batteries@, battery_keys(batteries@), r@),
{
    let mut keys: Vec<Vec<Vec<char>>> = Vec::new();
    let mut i: usize = 0;
    while i < batteries.len()
        invariant
            i <= batteries@.len(),
            keys@.len() == i,
            forall|j: int| 0 <= j < i ==> key_view(#[trigger] keys@[j]@) == seq![batteries@[j].name@],
        decreases batteries@.len() - i,
    {
        let k = vec![str_chars(batteries[i].name.as_str())];
        assert(key_view(k@) =~= seq![batteries@[i as int].name@]);
        keys.push(k);
        i = i + 1;
    }
    assert(key_views(keys@) =~= battery_keys(batteries@));
    stable_sort_by_keys(batteries, keys)
}

} // verus!
