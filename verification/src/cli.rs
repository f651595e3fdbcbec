//! What the command-line client reads from its arguments.
use crate::audio::joined;
use crate::backends::usb_id_text;
use crate::model::{CapabilityOwner, DeviceInfo, LightingConfig, LightingEffect};
use crate::text::{
    concat, fmt_hex, is_hex, owned, parse_bounded, parse_num, str_chars, string_from, strip_prefix_spec,
};
use vstd::prelude::*;
use vstd::utf8::encode_utf8;

verus! {

/// The digits of a colour argument: without one leading `#`.
pub open spec fn color_digits(input: Seq<char>) -> Seq<char> {
    match strip_prefix_spec(input, "#"@) {
        Some(v) => v,
        None => input,
    }
}

/// What `RRGGBB` or `#RRGGBB` reads as: six bytes of hexadecimal, red
/// first, or the reason it is refused.
pub open spec fn hex_color(input: Seq<char>) -> Result<(u8, u8, u8), Seq<char>> {
    let v = color_digits(input);
    if encode_utf8(v).len() != 6 {
        Err("RGB color must be RRGGBB or #RRGGBB"@)
    } else {
        match parse_bounded(v, 16, 0xffff_ffff) {
            Some(n) => Ok(((n / 65536 % 256) as u8, (n / 256 % 256) as u8, (n % 256) as u8)),
            None => Err("RGB color contains invalid hex digits"@),
        }
    }
}

pub fn parse_hex_color(input: &str) -> (r: Result<[u8; 3], String>)
    ensures
        match hex_color(input@) {
            Ok((red, green, blue)) => r matches Ok(c) && c@ == seq![red, green, blue],
            Err(m) => r matches Err(e) && e@ == m,
        },
{
    proof {
        reveal_strlit("#");
    }
    let chars = str_chars(input);
    let digits = match crate::text::strip_prefix(&chars, &str_chars("#")) {
        Some(v) => v,
        None => chars,
    };
    let value = crate::text::string_from(&digits);
    if value.as_str().as_bytes().len() != 6 {
        return Err(owned("RGB color must be RRGGBB or #RRGGBB"));
    }
    let n = match parse_num(&digits, 16, 0xffff_ffff) {
        Some(n) => n,
        None => return Err(owned("RGB color contains invalid hex digits")),
    };
    let c = [(n / 65536 % 256) as u8, (n / 256 % 256) as u8, (n % 256) as u8];
    assert(c@ =~= seq![(n / 65536 % 256) as u8, (n / 256 % 256) as u8, (n % 256) as u8]);
    Ok(c)
}


/// A USB id as the device list shows it; `----:----` for a device without one.
pub open spec fn usb_id_label(vendor_id: u16, product_id: u16) -> Seq<char> {
    if vendor_id == 0 && product_id == 0 {
        "----:----"@
    } else {
        usb_id_text(vendor_id, product_id)
    }
}

/// The writable owners, each as `Capability=Backend`, in order.
pub open spec fn owner_entries(owners: Seq<CapabilityOwner>) -> Seq<Seq<char>>
    decreases owners.len(),
{
    if owners.len() == 0 {
        Seq::empty()
    } else {
        let rest = owner_entries(owners.drop_last());
        let o = owners.last();
        if o.writable {
            rest.push(o.capability.name_spec() + "="@ + o.backend.label_spec())
        } else {
            rest
        }
    }
}

/// A line of the device list: id, name, vendor, class, support level, USB
/// id and the writable owners, separated by tabs.
pub open spec fn device_line_text(d: DeviceInfo) -> Seq<char> {
    d.id.0@ + "\t"@ + d.name@ + "\t"@ + d.vendor_family.label_spec() + "\t"@
        + d.device_class.label_spec() + "\t"@ + d.support_level.label_spec() + "\t"@ + usb_id_label(
        d.vendor_id,
        d.product_id,
    ) + "\t"@ + joined(owner_entries(d.capability_owners@), ","@)
}

fn owner_list(owners: &Vec<CapabilityOwner>) -> (r: Vec<char>)
    ensures
        r@ == joined(owner_entries(owners@), ","@),
{
    proof {
        reveal_strlit("=");
        reveal_strlit(",");
    }
    let mut out: Vec<char> = Vec::new();
    let mut any = false;
    let mut i: usize = 0;
    while i < owners.len()
        invariant
            i <= owners@.len(),
            out@ == joined(owner_entries(owners@.take(i as int)), ","@),
            any == (owner_entries(owners@.take(i as int)).len() > 0),
        decreases owners@.len() - i,
    {
        let ghost before = owner_entries(owners@.take(i as int));
        assert(owners@.take(i as int + 1).drop_last() =~= owners@.take(i as int));
        assert(owners@.take(i as int + 1).last() == owners@[i as int]);
        let o = &owners[i];
        if o.writable {
            let entry = concat(
                &concat(&str_chars(o.capability.name()), &str_chars("=")),
                &str_chars(o.backend.label()),
            );
            let ghost after = before.push(entry@);
            assert(after.drop_last() =~= before);
            if any {
                out = concat(&concat(&out, &str_chars(",")), &entry);
            } else {
                assert(before.len() == 0);
                assert(after =~= seq![entry@]);
                out = entry;
            }
            any = true;
        }
        i = i + 1;
    }
    assert(owners@.take(owners@.len() as int) =~= owners@);
    out
}

/// The device-list line of `device`.
pub fn device_line(device: &DeviceInfo) -> (r: String)
    ensures
        r@ == device_line_text(*device),
{
    proof {
        reveal_strlit("\t");
        reveal_strlit("----:----");
        reveal_strlit(":");
    }
    let tab = str_chars("\t");
    let usb = if device.vendor_id == 0 && device.product_id == 0 {
        str_chars("----:----")
    } else {
        concat(
            &concat(&fmt_hex(device.vendor_id as u128, 4), &str_chars(":")),
            &fmt_hex(device.product_id as u128, 4),
        )
    };
    let vendor = device.vendor_family.label();
    let mut out = concat(&str_chars(device.id.0.as_str()), &tab);
    out = concat(&concat(&out, &str_chars(device.name.as_str())), &tab);
    out = concat(&concat(&out, &str_chars(vendor.as_str())), &tab);
    out = concat(&concat(&out, &str_chars(device.device_class.label())), &tab);
    out = concat(&concat(&out, &str_chars(device.support_level.label())), &tab);
    out = concat(&concat(&out, &usb), &tab);
    out = concat(&out, &owner_list(&device.capability_owners));
    string_from(&out)
}

/// The lighting a colour request sets: brightness and speed held to at most 100.
pub fn lighting_request(effect: LightingEffect, color: [u8; 3], brightness: u8, speed: u8) -> (r:
    LightingConfig)
    ensures
        r.effect == effect,
        r.color == color,
        r.brightness == (if brightness > 100 { 100 } else { brightness }),
        r.speed == (if speed > 100 { 100 } else { speed }),
{
    LightingConfig {
        effect,
        color,
        brightness: if brightness > 100 { 100 } else { brightness },
        speed: if speed > 100 { 100 } else { speed },
    }
}

} // verus!
