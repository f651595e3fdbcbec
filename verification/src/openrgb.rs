//! The OpenRGB SDK wire format: packet framing, protocol negotiation, the
//! controller-data parser and the requests that set colours and modes.
use crate::backends::BackendError;
use crate::model::{
    LightingConfig, LightingControllerMetadata, LightingEffect, LightingModeMetadata,
    LightingZoneMetadata,
};
use crate::text::{
    concat, contains, contains_sub, copy_string, dec_str, fmt_dec, lowercase, owned, str_chars,
    string_from, to_lowercase,
};
use vstd::prelude::*;
use vstd::utf8::{decode_utf8, encode_utf8, valid_utf8};

verus! {

/// The newest SDK protocol revision this parser understands.
pub const CLIENT_PROTOCOL_MAX: u32 = 5;

/// The largest payload sent or accepted (8 MiB).
pub const MAX_PACKET: usize = 8388608;

pub const REQUEST_CONTROLLER_COUNT: u32 = 0;

pub const REQUEST_CONTROLLER_DATA: u32 = 1;

pub const REQUEST_PROTOCOL_VERSION: u32 = 40;

pub const SET_CLIENT_NAME: u32 = 50;

pub const REQUEST_RESCAN_DEVICES: u32 = 140;

pub const UPDATE_LEDS: u32 = 1050;

pub const UPDATE_MODE: u32 = 1101;

fn protocol_error(m: &str) -> (r: BackendError)
    ensures
        r matches BackendError::Protocol(s) && s@ == m@,
{
    BackendError::Protocol(owned(m))
}

fn invalid_error(m: &str) -> (r: BackendError)
    ensures
        r matches BackendError::Invalid(s) && s@ == m@,
{
    BackendError::Invalid(owned(m))
}

// ------------------------------------------------------------ little endian

pub open spec fn le16(x: u16) -> Seq<u8> {
    seq![x as u8, (x >> 8u16) as u8]
}

pub open spec fn le32(x: u32) -> Seq<u8> {
    seq![x as u8, (x >> 8u32) as u8, (x >> 16u32) as u8, (x >> 24u32) as u8]
}

/// The little-endian `u16` at `d[p..p + 2]`.
pub open spec fn u16_at(d: Seq<u8>, p: int) -> u16 {
    (d[p] as u16) | ((d[p + 1] as u16) << 8u16)
}

/// The little-endian `u32` at `d[p..p + 4]`.
pub open spec fn u32_at(d: Seq<u8>, p: int) -> u32 {
    (d[p] as u32) | ((d[p + 1] as u32) << 8u32) | ((d[p + 2] as u32) << 16u32) | ((d[p + 3] as u32)
        << 24u32)
}

proof fn lemma_u32_bytes(x: u32)
    ensures
        ((x as u8) as u32) | ((((x >> 8u32) as u8) as u32) << 8u32) | ((((x >> 16u32) as u8) as u32)
            << 16u32) | ((((x >> 24u32) as u8) as u32) << 24u32) == x,
{
    assert(((x as u8) as u32) | ((((x >> 8u32) as u8) as u32) << 8u32) | ((((x >> 16u32) as u8)
        as u32) << 16u32) | ((((x >> 24u32) as u8) as u32) << 24u32) == x) by (bit_vector);
}

/// Reading back what `le32` wrote gives the value.
pub proof fn lemma_le32_round_trip(x: u32, d: Seq<u8>, p: int)
    requires
        0 <= p,
        p + 4 <= d.len(),
        d.subrange(p, p + 4) == le32(x),
    ensures
        u32_at(d, p) == x,
{
    assert(d[p] == d.subrange(p, p + 4)[0]);
    assert(d[p + 1] == d.subrange(p, p + 4)[1]);
    assert(d[p + 2] == d.subrange(p, p + 4)[2]);
    assert(d[p + 3] == d.subrange(p, p + 4)[3]);
    lemma_u32_bytes(x);
}

fn push_le16(out: &mut Vec<u8>, x: u16)
    ensures
        final(out)@ == old(out)@ + le16(x),
{
    out.push(x as u8);
    out.push((x >> 8u16) as u8);
    assert(final(out)@ =~= old(out)@ + le16(x));
}

fn push_le32(out: &mut Vec<u8>, x: u32)
    ensures
        final(out)@ == old(out)@ + le32(x),
{
    out.push(x as u8);
    out.push((x >> 8u32) as u8);
    out.push((x >> 16u32) as u8);
    out.push((x >> 24u32) as u8);
    assert(final(out)@ =~= old(out)@ + le32(x));
}

fn read_u16_at(d: &[u8], p: usize) -> (r: u16)
    requires
        p + 2 <= d@.len(),
    ensures
        r == u16_at(d@, p as int),
{
    (d[p] as u16) | ((d[p + 1] as u16) << 8u16)
}

fn read_u32_at(d: &[u8], p: usize) -> (r: u32)
    requires
        p + 4 <= d@.len(),
    ensures
        r == u32_at(d@, p as int),
{
    (d[p] as u32) | ((d[p + 1] as u32) << 8u32) | ((d[p + 2] as u32) << 16u32) | ((d[p + 3] as u32)
        << 24u32)
}

// ------------------------------------------------------------ framing

/// The 16-byte header before every packet.
#[derive(Debug, Clone, Copy, PartialEq, Eq, Structural)]
pub struct Header {
    pub device: u32,
    pub packet_id: u32,
    pub size: u32,
}

/// `"ORGB"`.
pub open spec fn magic() -> Seq<u8> {
    seq![0x4fu8, 0x52u8, 0x47u8, 0x42u8]
}

/// The header of a packet: the magic, then device, packet id and payload
/// size, each a little-endian `u32`.
pub open spec fn header_bytes(device: u32, packet_id: u32, size: u32) -> Seq<u8> {
    magic() + le32(device) + le32(packet_id) + le32(size)
}

/// The fields a header carries.
pub open spec fn header_fields(b: Seq<u8>) -> Header {
    Header { device: u32_at(b, 4), packet_id: u32_at(b, 8), size: u32_at(b, 12) }
}

pub fn encode_header(device: u32, packet_id: u32, size: u32) -> (r: [u8; 16])
    ensures
        r@ == header_bytes(device, packet_id, size),
{
    let r = [
        0x4fu8,
        0x52u8,
        0x47u8,
        0x42u8,
        device as u8,
        (device >> 8u32) as u8,
        (device >> 16u32) as u8,
        (device >> 24u32) as u8,
        packet_id as u8,
        (packet_id >> 8u32) as u8,
        (packet_id >> 16u32) as u8,
        (packet_id >> 24u32) as u8,
        size as u8,
        (size >> 8u32) as u8,
        (size >> 16u32) as u8,
        (size >> 24u32) as u8,
    ];
    assert(r@ =~= header_bytes(device, packet_id, size));
    r
}

/// Reads a header; anything but the magic in front is a protocol error.
pub fn decode_header(bytes: [u8; 16]) -> (r: Result<Header, BackendError>)
    ensures
        r is Ok <==> bytes@.take(4) == magic(),
        r matches Ok(h) ==> h == header_fields(bytes@),
        r matches Err(e) ==> e matches BackendError::Protocol(m) && m@
            == "OpenRGB packet magic mismatch"@,
{
    if !(bytes[0] == 0x4f && bytes[1] == 0x52 && bytes[2] == 0x47 && bytes[3] == 0x42) {
        proof {
            if bytes@.take(4) == magic() {
                assert(bytes@.take(4)[0] == bytes@[0]);
                assert(bytes@.take(4)[1] == bytes@[1]);
                assert(bytes@.take(4)[2] == bytes@[2]);
                assert(bytes@.take(4)[3] == bytes@[3]);
            }
        }
        return Err(protocol_error("OpenRGB packet magic mismatch"));
    }
    assert(bytes@.take(4) =~= magic());
    Ok(
        Header {
            device: read_u32_at(&bytes, 4),
            packet_id: read_u32_at(&bytes, 8),
            size: read_u32_at(&bytes, 12),
        },
    )
}

/// Decoding an encoded header gives back its fields.
pub proof fn law_header_round_trip(device: u32, packet_id: u32, size: u32)
    ensures
        header_bytes(device, packet_id, size).len() == 16,
        header_bytes(device, packet_id, size).take(4) == magic(),
        header_fields(header_bytes(device, packet_id, size)) == (Header {
            device,
            packet_id,
            size,
        }),
{
    let b = header_bytes(device, packet_id, size);
    assert(b.take(4) =~= magic());
    assert(b.subrange(4, 8) =~= le32(device));
    assert(b.subrange(8, 12) =~= le32(packet_id));
    assert(b.subrange(12, 16) =~= le32(size));
    lemma_le32_round_trip(device, b, 4);
    lemma_le32_round_trip(packet_id, b, 8);
    lemma_le32_round_trip(size, b, 12);
}

/// A packet as sent: the header, then the payload. Payloads over
/// `MAX_PACKET` bytes are refused.
pub fn frame_packet(device: u32, packet_id: u32, payload: &[u8]) -> (r: Result<
    Vec<u8>,
    BackendError,
>)
    ensures
        r is Ok <==> payload@.len() <= MAX_PACKET,
        r matches Ok(b) ==> b@ == header_bytes(device, packet_id, payload@.len() as u32) + payload@,
        r matches Err(e) ==> e matches BackendError::Invalid(m) && m@
            == "OpenRGB payload exceeds ForgeHX limit"@,
{
    if payload.len() > MAX_PACKET {
        return Err(invalid_error("OpenRGB payload exceeds ForgeHX limit"));
    }
    let header = encode_header(device, packet_id, payload.len() as u32);
    let mut out: Vec<u8> = Vec::new();
    let mut i: usize = 0;
    while i < 16
        invariant
            i <= 16,
            header@.len() == 16,
            out@ == header@.take(i as int),
        decreases 16 - i,
    {
        out.push(header[i]);
        i = i + 1;
    }
    let mut j: usize = 0;
    while j < payload.len()
        invariant
            j <= payload@.len(),
            header@.len() == 16,
            out@ == header@ + payload@.take(j as int),
        decreases payload@.len() - j,
    {
        out.push(payload[j]);
        j = j + 1;
    }
    assert(header@.take(16) == header@);
    assert(payload@.take(payload@.len() as int) == payload@);
    Ok(out)
}

/// The payload size a received header announces, refused over
/// `MAX_PACKET` bytes.
pub fn payload_size(header: &Header) -> (r: Result<usize, BackendError>)
    ensures
        r is Ok <==> header.size <= MAX_PACKET,
        r matches Ok(n) ==> n == header.size,
        r matches Err(e) ==> e matches BackendError::Protocol(m) && m@
            == "OpenRGB packet exceeds ForgeHX limit"@,
{
    if header.size as u64 > MAX_PACKET as u64 {
        return Err(protocol_error("OpenRGB packet exceeds ForgeHX limit"));
    }
    Ok(header.size as usize)
}

// ------------------------------------------------------------ negotiation

/// The protocol revision a server announced and the one both sides speak.
#[derive(Debug, Clone, Copy, PartialEq, Eq, Structural)]
pub struct OpenRgbProtocolInfo {
    pub server_version: u32,
    pub negotiated_version: u32,
}

/// The request for the server's protocol revision: our own newest one.
pub fn protocol_request() -> (r: Vec<u8>)
    ensures
        r@ == le32(CLIENT_PROTOCOL_MAX),
{
    let mut out: Vec<u8> = Vec::new();
    push_le32(&mut out, CLIENT_PROTOCOL_MAX);
    assert(out@ =~= le32(CLIENT_PROTOCOL_MAX));
    out
}

/// Agrees on the older of the server's and our protocol revision; a server
/// that answers otherwise than with one `u32`, or speaks only revision 0,
/// is refused.
pub fn negotiate(response: &Header, payload: &[u8]) -> (r: Result<OpenRgbProtocolInfo, BackendError>)
    ensures
        r is Ok <==> response.packet_id == REQUEST_PROTOCOL_VERSION && payload@.len() == 4 && u32_at(
            payload@,
            0,
        ) != 0,
        r matches Ok(info) ==> info.server_version == u32_at(payload@, 0) && info.negotiated_version
            == (if u32_at(payload@, 0) < CLIENT_PROTOCOL_MAX {
            u32_at(payload@, 0)
        } else {
            CLIENT_PROTOCOL_MAX
        }),
        !(response.packet_id == REQUEST_PROTOCOL_VERSION && payload@.len() == 4) ==> (r matches Err(
            BackendError::Protocol(m),
        ) && m@ == "invalid OpenRGB version response"@),
        response.packet_id == REQUEST_PROTOCOL_VERSION && payload@.len() == 4 && u32_at(payload@, 0)
            == 0 ==> (r matches Err(BackendError::Protocol(m)) && m@
            == "OpenRGB protocol 0 is not supported by ForgeHX"@),
{
    if response.packet_id != REQUEST_PROTOCOL_VERSION || payload.len() != 4 {
        return Err(protocol_error("invalid OpenRGB version response"));
    }
    let server_version = read_u32_at(payload, 0);
    let negotiated_version = if server_version < CLIENT_PROTOCOL_MAX {
        server_version
    } else {
        CLIENT_PROTOCOL_MAX
    };
    if negotiated_version == 0 {
        return Err(protocol_error("OpenRGB protocol 0 is not supported by ForgeHX"));
    }
    Ok(OpenRgbProtocolInfo { server_version, negotiated_version })
}

/// `"ForgeHX"` and a terminating zero: the name the client announces.
pub open spec fn client_name() -> Seq<u8> {
    seq![0x46u8, 0x6fu8, 0x72u8, 0x67u8, 0x65u8, 0x48u8, 0x58u8, 0u8]
}

pub fn client_name_payload() -> (r: Vec<u8>)
    ensures
        r@ == client_name(),
{
    let r = vec![0x46u8, 0x6fu8, 0x72u8, 0x67u8, 0x65u8, 0x48u8, 0x58u8, 0u8];
    assert(r@ =~= client_name());
    r
}

/// The number of controllers a controller-count answer carries.
pub fn parse_controller_count(response: &Header, payload: &[u8]) -> (r: Result<u32, BackendError>)
    ensures
        r is Ok <==> response.packet_id == REQUEST_CONTROLLER_COUNT && payload@.len() == 4,
        r matches Ok(n) ==> n == u32_at(payload@, 0),
        r matches Err(e) ==> e matches BackendError::Protocol(m) && m@
            == "invalid OpenRGB controller-count response"@,
{
    if response.packet_id != REQUEST_CONTROLLER_COUNT || payload.len() != 4 {
        return Err(protocol_error("invalid OpenRGB controller-count response"));
    }
    Ok(read_u32_at(payload, 0))
}

/// How many controllers a listing asks for: the count the server gave,
/// at most 512.
pub fn listed_controller_count(payload: &[u8]) -> (r: Result<u32, BackendError>)
    ensures
        r is Ok <==> payload@.len() == 4,
        r matches Ok(n) ==> n == (if u32_at(payload@, 0) < 512 {
            u32_at(payload@, 0)
        } else {
            512
        }),
        r matches Err(e) ==> e matches BackendError::Protocol(m) && m@
            == "invalid OpenRGB controller count"@,
{
    if payload.len() != 4 {
        return Err(protocol_error("invalid OpenRGB controller count"));
    }
    let n = read_u32_at(payload, 0);
    Ok(
        if n < 512 {
            n
        } else {
            512
        },
    )
}

/// A controller-data answer must carry the packet id and the controller
/// index that were asked for.
pub fn check_controller_response(response: &Header, index: u32) -> (r: Result<(), BackendError>)
    ensures
        r is Ok <==> response.packet_id == REQUEST_CONTROLLER_DATA && response.device == index,
        r matches Err(e) ==> e matches BackendError::Protocol(m) && m@
            == "mismatched OpenRGB controller response"@,
{
    if response.packet_id != REQUEST_CONTROLLER_DATA || response.device != index {
        return Err(protocol_error("mismatched OpenRGB controller response"));
    }
    Ok(())
}

/// A rescan needs protocol revision 5.
pub fn check_rescan(negotiated_version: u32) -> (r: Result<(), BackendError>)
    ensures
        r is Ok <==> negotiated_version >= 5,
        r matches Err(e) ==> e matches BackendError::Protocol(m) && m@
            == "OpenRGB rescan requires protocol 5"@,
{
    if negotiated_version < 5 {
        return Err(protocol_error("OpenRGB rescan requires protocol 5"));
    }
    Ok(())
}

// ------------------------------------------------------------ colours

/// The SDK's `RGBColor`: red in the low byte, then green, then blue.
pub open spec fn rgb_value(color: Seq<u8>) -> int {
    color[0] + 256 * color[1] + 65536 * color[2]
}

pub fn rgb_color(color: [u8; 3]) -> (r: u32)
    ensures
        r == rgb_value(color@),
{
    let r0 = color[0];
    let g = color[1];
    let b = color[2];
    let v = (r0 as u32) | ((g as u32) << 8u32) | ((b as u32) << 16u32);
    assert((r0 as u32) | ((g as u32) << 8u32) | ((b as u32) << 16u32) == r0 as u32 + 256 * (
    g as u32) + 65536 * (b as u32)) by (bit_vector);
    v
}

/// A percentage mapped onto `min..=max`; `min` when the range is empty.
pub open spec fn scaled(percent: u8, min: u32, max: u32) -> int {
    if max <= min {
        min as int
    } else {
        min + (max - min) * (if percent < 100 {
            percent as int
        } else {
            100
        }) / 100
    }
}

pub fn scale_percent(percent: u8, min: u32, max: u32) -> (r: u32)
    ensures
        r == scaled(percent, min, max),
        min <= r,
        min < max ==> r <= max,
{
    if max <= min {
        return min;
    }
    let p: u64 = if percent < 100 {
        percent as u64
    } else {
        100
    };
    let d: u64 = (max - min) as u64;
    assert(d * p <= d * 100) by (nonlinear_arith)
        requires
            p <= 100,
    ;
    assert(d * p / 100 <= d) by (nonlinear_arith)
        requires
            d * p <= d * 100,
    ;
    let step = d * p / 100;
    min + step as u32
}

/// `n` copies of `s` one after another.
pub open spec fn repeat(s: Seq<u8>, n: nat) -> Seq<u8>
    decreases n,
{
    if n == 0 {
        Seq::empty()
    } else {
        repeat(s, (n - 1) as nat) + s
    }
}

/// The payload that paints all `led_count` LEDs of a controller one colour:
/// its size, the LED count, then the colour once per LED.
pub open spec fn static_color_bytes(led_count: u16, color: Seq<u8>) -> Seq<u8> {
    le32((6 + 4 * led_count) as u32) + le16(led_count) + repeat(
        le32(rgb_value(color) as u32),
        led_count as nat,
    )
}

pub fn static_color_payload(led_count: u16, color: [u8; 3]) -> (r: Result<Vec<u8>, BackendError>)
    ensures
        r is Ok <==> led_count > 0,
        r matches Ok(b) ==> b@ == static_color_bytes(led_count, color@),
        r matches Err(e) ==> e matches BackendError::Invalid(m) && m@
            == "OpenRGB controller exposes zero LEDs"@,
{
    if led_count == 0 {
        return Err(invalid_error("OpenRGB controller exposes zero LEDs"));
    }
    let mut out: Vec<u8> = Vec::new();
    push_le32(&mut out, 6u32 + led_count as u32 * 4);
    push_le16(&mut out, led_count);
    let rgb = rgb_color(color);
    let ghost head = out@;
    let mut i: u16 = 0;
    while i < led_count
        invariant
            i <= led_count,
            rgb == rgb_value(color@),
            out@ == head + repeat(le32(rgb), i as nat),
        decreases led_count - i,
    {
        push_le32(&mut out, rgb);
        assert(head + repeat(le32(rgb), i as nat) + le32(rgb) =~= head + repeat(
            le32(rgb),
            (i + 1) as nat,
        ));
        i = i + 1;
    }
    Ok(out)
}

// ------------------------------------------------------------ strings

/// What `String::from_utf8_lossy` makes of a byte sequence.
pub uninterp spec fn utf8_lossy(bytes: Seq<u8>) -> Seq<char>;

/// Calls `String::from_utf8_lossy`. Claimed: the result is determined by
/// the bytes, and valid UTF-8 decodes unchanged. How invalid sequences are
/// replaced is left unsaid.
#[verifier::external_body]
fn lossy_string(bytes: &[u8]) -> (r: String)
    ensures
        r@ == utf8_lossy(bytes@),
        valid_utf8(bytes@) ==> r@ == decode_utf8(bytes@),
{
    String::from_utf8_lossy(bytes).into_owned()
}

/// Index of the first zero byte, or the length when there is none.
pub open spec fn nul_pos(b: Seq<u8>) -> nat
    decreases b.len(),
{
    if b.len() == 0 {
        0
    } else if b[0] == 0 {
        0
    } else {
        1 + nul_pos(b.drop_first())
    }
}

proof fn lemma_nul_pos_is(b: Seq<u8>, k: int)
    requires
        0 <= k <= b.len(),
        forall|j: int| 0 <= j < k ==> b[j] != 0,
        k == b.len() || b[k] == 0,
    ensures
        nul_pos(b) == k,
    decreases k,
{
    if k > 0 {
        let t = b.drop_first();
        assert forall|j: int| 0 <= j < k - 1 implies t[j] != 0 by {
            assert(t[j] == b[j + 1]);
        }
        if k < b.len() {
            assert(t[k - 1] == b[k]);
        }
        lemma_nul_pos_is(t, k - 1);
    }
}

/// The result of reading a field at a position: the value and the position
/// after it, or why the data ends too early.
pub type Read<T> = Result<(T, int), Seq<char>>;

pub open spec fn truncated() -> Seq<char> {
    "truncated OpenRGB controller data"@
}

/// `n` bytes are left at `p`.
pub open spec fn fits(d: Seq<u8>, p: int, n: int) -> bool {
    p + n <= d.len()
}

/// A string field: a `u16` length, then that many bytes; the text ends at
/// the first zero byte.
pub open spec fn rd_str(d: Seq<u8>, p: int) -> Read<Seq<char>> {
    if !fits(d, p, 2) {
        Err(truncated())
    } else {
        let len = u16_at(d, p) as int;
        if !fits(d, p + 2, len) {
            Err(truncated())
        } else {
            let raw = d.subrange(p + 2, p + 2 + len);
            Ok((utf8_lossy(raw.take(nul_pos(raw) as int)), p + 2 + len))
        }
    }
}

/// Skips a string field.
pub open spec fn skip_str(d: Seq<u8>, p: int) -> Result<int, Seq<char>> {
    if !fits(d, p, 2) {
        Err(truncated())
    } else if !fits(d, p + 2, u16_at(d, p) as int) {
        Err(truncated())
    } else {
        Ok(p + 2 + u16_at(d, p))
    }
}

fn read_str(d: &[u8], p: usize) -> (r: Result<(String, usize), BackendError>)
    requires
        p <= d@.len(),
    ensures
        match rd_str(d@, p as int) {
            Ok((s, q)) => r matches Ok((t, q2)) && t@ == s && q2 == q,
            Err(m) => r matches Err(BackendError::Protocol(e)) && e@ == m,
        },
{
    if d.len() - p < 2 {
        return Err(protocol_error("truncated OpenRGB controller data"));
    }
    let len = read_u16_at(d, p) as usize;
    if d.len() - (p + 2) < len {
        return Err(protocol_error("truncated OpenRGB controller data"));
    }
    let start = p + 2;
    let ghost raw = d@.subrange(start as int, start + len);
    let mut bytes: Vec<u8> = Vec::new();
    let mut i: usize = 0;
    let mut done = false;
    while !done && i < len
        invariant
            start + len <= d.len(),
            d@.len() == d.len(),
            raw == d@.subrange(start as int, start + len),
            i <= len,
            bytes@ == raw.take(i as int),
            forall|j: int| 0 <= j < i ==> raw[j] != 0,
            done ==> i < len && raw[i as int] == 0,
        decreases len - i, if done { 0int } else { 1int },
    {
        if d[start + i] == 0 {
            done = true;
        } else {
            bytes.push(d[start + i]);
            i = i + 1;
        }
    }
    proof {
        lemma_nul_pos_is(raw, i as int);
    }
    Ok((lossy_string(&bytes), start + len))
}

fn skip_string(d: &[u8], p: usize) -> (r: Result<usize, BackendError>)
    requires
        p <= d@.len(),
    ensures
        match skip_str(d@, p as int) {
            Ok(q) => r matches Ok(q2) && q2 == q && q <= d@.len(),
            Err(m) => r matches Err(BackendError::Protocol(e)) && e@ == m,
        },
{
    if d.len() - p < 2 {
        return Err(protocol_error("truncated OpenRGB controller data"));
    }
    let len = read_u16_at(d, p) as usize;
    if d.len() - (p + 2) < len {
        return Err(protocol_error("truncated OpenRGB controller data"));
    }
    Ok(p + 2 + len)
}

// ------------------------------------------------------------ controllers

/// One lighting mode of a controller, as the SDK describes it.
#[derive(Debug, Clone)]
pub struct OpenRgbMode {
    pub index: u32,
    pub name: String,
    pub value: i32,
    pub flags: u32,
    pub speed_min: u32,
    pub speed_max: u32,
    pub brightness_min: Option<u32>,
    pub brightness_max: Option<u32>,
    pub colors_min: u32,
    pub colors_max: u32,
    pub speed: u32,
    pub brightness: Option<u32>,
    pub direction: u32,
    pub color_mode: u32,
    pub colors: Vec<u32>,
}

pub struct ModeView {
    pub index: u32,
    pub name: Seq<char>,
    pub value: i32,
    pub flags: u32,
    pub speed_min: u32,
    pub speed_max: u32,
    pub brightness_min: Option<u32>,
    pub brightness_max: Option<u32>,
    pub colors_min: u32,
    pub colors_max: u32,
    pub speed: u32,
    pub brightness: Option<u32>,
    pub direction: u32,
    pub color_mode: u32,
    pub colors: Seq<u32>,
}

impl View for OpenRgbMode {
    type V = ModeView;

    open spec fn view(&self) -> ModeView {
        ModeView {
            index: self.index,
            name: self.name@,
            value: self.value,
            flags: self.flags,
            speed_min: self.speed_min,
            speed_max: self.speed_max,
            brightness_min: self.brightness_min,
            brightness_max: self.brightness_max,
            colors_min: self.colors_min,
            colors_max: self.colors_max,
            speed: self.speed,
            brightness: self.brightness,
            direction: self.direction,
            color_mode: self.color_mode,
            colors: self.colors@,
        }
    }
}

pub struct ZoneView {
    pub index: u32,
    pub name: Seq<char>,
    pub led_count: u32,
}

pub open spec fn zone_view(z: LightingZoneMetadata) -> ZoneView {
    ZoneView { index: z.index, name: z.name@, led_count: z.led_count }
}

pub open spec fn mode_views(s: Seq<OpenRgbMode>) -> Seq<ModeView> {
    s.map_values(|m: OpenRgbMode| m@)
}

pub open spec fn zone_views(s: Seq<LightingZoneMetadata>) -> Seq<ZoneView> {
    s.map_values(|z: LightingZoneMetadata| zone_view(z))
}

/// Bytes a mode takes after its name, up to its colour list.
pub open spec fn mode_fixed(protocol: u32) -> int {
    if protocol >= 3 {
        50
    } else {
        38
    }
}

/// The colour list of a mode: `n` little-endian `u32`s from `p`.
pub open spec fn colors_at(d: Seq<u8>, p: int, n: nat) -> Seq<u32> {
    Seq::new(n, |k: int| u32_at(d, p + 4 * k))
}

pub open spec fn cap(x: u16, max: u16) -> u16 {
    if x < max {
        x
    } else {
        max
    }
}

/// One mode: its name, the fixed fields (the brightness fields only from
/// protocol 3 on), then up to 1024 colours.
pub open spec fn rd_mode(d: Seq<u8>, p: int, protocol: u32, index: u32) -> Read<ModeView> {
    match rd_str(d, p) {
        Err(m) => Err(m),
        Ok((name, q)) => {
            let e = if protocol >= 3 {
                8int
            } else {
                0
            };
            let f = if protocol >= 3 {
                12int
            } else {
                0
            };
            if !fits(d, q, mode_fixed(protocol)) {
                Err(truncated())
            } else {
                let n = cap(u16_at(d, q + 36 + f), 1024);
                let c0 = q + 38 + f;
                if !fits(d, c0, 4 * n) {
                    Err(truncated())
                } else {
                    Ok(
                        (
                            ModeView {
                                index,
                                name,
                                value: u32_at(d, q) as i32,
                                flags: u32_at(d, q + 4),
                                speed_min: u32_at(d, q + 8),
                                speed_max: u32_at(d, q + 12),
                                brightness_min: if protocol >= 3 {
                                    Some(u32_at(d, q + 16))
                                } else {
                                    None
                                },
                                brightness_max: if protocol >= 3 {
                                    Some(u32_at(d, q + 20))
                                } else {
                                    None
                                },
                                colors_min: u32_at(d, q + 16 + e),
                                colors_max: u32_at(d, q + 20 + e),
                                speed: u32_at(d, q + 24 + e),
                                brightness: if protocol >= 3 {
                                    Some(u32_at(d, q + 36))
                                } else {
                                    None
                                },
                                direction: u32_at(d, q + 28 + f),
                                color_mode: u32_at(d, q + 32 + f),
                                colors: colors_at(d, c0, n as nat),
                            },
                            c0 + 4 * n,
                        ),
                    )
                }
            }
        },
    }
}

/// `n` modes from `p`, numbered from `index`.
pub open spec fn rd_modes(d: Seq<u8>, p: int, protocol: u32, index: nat, n: nat) -> Read<
    Seq<ModeView>,
>
    decreases n,
{
    if n == 0 {
        Ok((Seq::empty(), p))
    } else {
        match rd_mode(d, p, protocol, index as u32) {
            Err(m) => Err(m),
            Ok((mode, q)) => match rd_modes(d, q, protocol, index + 1, (n - 1) as nat) {
                Err(m) => Err(m),
                Ok((rest, r)) => Ok((seq![mode] + rest, r)),
            },
        }
    }
}

/// Skips `n` segments: a name and 12 bytes each.
pub open spec fn skip_segments(d: Seq<u8>, p: int, n: nat) -> Result<int, Seq<char>>
    decreases n,
{
    if n == 0 {
        Ok(p)
    } else {
        match skip_str(d, p) {
            Err(m) => Err(m),
            Ok(q) => if !fits(d, q, 12) {
                Err(truncated())
            } else {
                skip_segments(d, q + 12, (n - 1) as nat)
            },
        }
    }
}

/// One zone: name, type, LED range, LED count, a matrix that is skipped,
/// segments from protocol 4 on (at most 4096) and flags from protocol 5 on.
pub open spec fn rd_zone(d: Seq<u8>, p: int, protocol: u32, index: u32) -> Read<ZoneView> {
    match rd_str(d, p) {
        Err(m) => Err(m),
        Ok((name, q)) => if !fits(d, q, 18) {
            Err(truncated())
        } else {
            let count = u32_at(d, q + 12);
            let q2 = q + 18 + u16_at(d, q + 16);
            if !fits(d, q2, 0) {
                Err(truncated())
            } else {
                let q3 = if protocol >= 4 {
                    if !fits(d, q2, 2) {
                        Err(truncated())
                    } else {
                        skip_segments(d, q2 + 2, cap(u16_at(d, q2), 4096) as nat)
                    }
                } else {
                    Ok(q2)
                };
                match q3 {
                    Err(m) => Err(m),
                    Ok(q3) => if protocol >= 5 && !fits(d, q3, 4) {
                        Err(truncated())
                    } else {
                        Ok(
                            (
                                ZoneView { index, name, led_count: count },
                                if protocol >= 5 {
                                    q3 + 4
                                } else {
                                    q3
                                },
                            ),
                        )
                    },
                }
            }
        },
    }
}

pub open spec fn rd_zones(d: Seq<u8>, p: int, protocol: u32, index: nat, n: nat) -> Read<
    Seq<ZoneView>,
>
    decreases n,
{
    if n == 0 {
        Ok((Seq::empty(), p))
    } else {
        match rd_zone(d, p, protocol, index as u32) {
            Err(m) => Err(m),
            Ok((zone, q)) => match rd_zones(d, q, protocol, index + 1, (n - 1) as nat) {
                Err(m) => Err(m),
                Ok((rest, r)) => Ok((seq![zone] + rest, r)),
            },
        }
    }
}

/// Skips `n` LEDs: a name and a `u32` each.
pub open spec fn skip_leds(d: Seq<u8>, p: int, n: nat) -> Result<int, Seq<char>>
    decreases n,
{
    if n == 0 {
        Ok(p)
    } else {
        match skip_str(d, p) {
            Err(m) => Err(m),
            Ok(q) => if !fits(d, q, 4) {
                Err(truncated())
            } else {
                skip_leds(d, q + 4, (n - 1) as nat)
            },
        }
    }
}

/// Skips `n` strings.
pub open spec fn skip_strs(d: Seq<u8>, p: int, n: nat) -> Result<int, Seq<char>>
    decreases n,
{
    if n == 0 {
        Ok(p)
    } else {
        match skip_str(d, p) {
            Err(m) => Err(m),
            Ok(q) => skip_strs(d, q, (n - 1) as nat),
        }
    }
}


/// The rest of a controller after its strings.
pub struct BodyView {
    pub active_mode: i32,
    pub modes: Seq<ModeView>,
    pub zones: Seq<ZoneView>,
    pub led_count: u16,
}

/// The LEDs (a name and a value each), the colours, and from protocol 5 on
/// the alternate names and flags; what is kept is the LED count.
pub open spec fn rd_tail(d: Seq<u8>, p: int, protocol: u32) -> Result<u16, Seq<char>> {
    if !fits(d, p, 2) {
        Err(truncated())
    } else {
        let leds = u16_at(d, p);
        match skip_leds(d, p + 2, leds as nat) {
            Err(m) => Err(m),
            Ok(q) => if !fits(d, q, 2) {
                Err(truncated())
            } else if !fits(d, q + 2, 4 * u16_at(d, q)) {
                Err(truncated())
            } else {
                let q2 = q + 2 + 4 * u16_at(d, q);
                if protocol < 5 {
                    Ok(leds)
                } else if !fits(d, q2, 2) {
                    Err(truncated())
                } else {
                    match skip_strs(d, q2 + 2, u16_at(d, q2) as nat) {
                        Err(m) => Err(m),
                        Ok(q3) => if !fits(d, q3, 4) {
                            Err(truncated())
                        } else {
                            Ok(leds)
                        },
                    }
                }
            },
        }
    }
}

/// The mode count (at most 256 are read), the active mode, the modes, the
/// zones (at most 1024) and the tail.
pub open spec fn rd_body(d: Seq<u8>, p: int, protocol: u32) -> Result<BodyView, Seq<char>> {
    if !fits(d, p, 6) {
        Err(truncated())
    } else {
        match rd_modes(d, p + 6, protocol, 0, cap(u16_at(d, p), 256) as nat) {
            Err(m) => Err(m),
            Ok((modes, q)) => if !fits(d, q, 2) {
                Err(truncated())
            } else {
                match rd_zones(d, q + 2, protocol, 0, cap(u16_at(d, q), 1024) as nat) {
                    Err(m) => Err(m),
                    Ok((zones, q2)) => match rd_tail(d, q2, protocol) {
                        Err(m) => Err(m),
                        Ok(leds) => Ok(
                            BodyView {
                                active_mode: u32_at(d, p + 2) as i32,
                                modes,
                                zones,
                                led_count: leds,
                            },
                        ),
                    },
                }
            },
        }
    }
}

/// A controller as the parser reads it.
pub struct ControllerView {
    pub name: Seq<char>,
    pub vendor: Seq<char>,
    pub description: Seq<char>,
    pub version: Seq<char>,
    pub serial: Seq<char>,
    pub location: Seq<char>,
    pub body: BodyView,
}

pub open spec fn size_error() -> Seq<char> {
    "invalid OpenRGB controller data size"@
}

/// The controller-data block: its declared size (at least 4 and no more
/// than the block), the device type, name, vendor (from protocol 1 on),
/// description, version, serial, location, then the body.
pub open spec fn parse_spec(protocol: u32, d: Seq<u8>) -> Result<ControllerView, Seq<char>> {
    if !fits(d, 0, 4) {
        Err(truncated())
    } else if u32_at(d, 0) > d.len() || u32_at(d, 0) < 4 {
        Err(size_error())
    } else if !fits(d, 4, 4) {
        Err(truncated())
    } else {
        match rd_str(d, 8) {
            Err(m) => Err(m),
            Ok((name, q1)) => match (if protocol >= 1 {
                rd_str(d, q1)
            } else {
                Ok((Seq::empty(), q1))
            }) {
                Err(m) => Err(m),
                Ok((vendor, q2)) => match rd_str(d, q2) {
                    Err(m) => Err(m),
                    Ok((description, q3)) => match rd_str(d, q3) {
                        Err(m) => Err(m),
                        Ok((version, q4)) => match rd_str(d, q4) {
                            Err(m) => Err(m),
                            Ok((serial, q5)) => match rd_str(d, q5) {
                                Err(m) => Err(m),
                                Ok((location, q6)) => match rd_body(d, q6, protocol) {
                                    Err(m) => Err(m),
                                    Ok(body) => Ok(
                                        ControllerView {
                                            name,
                                            vendor,
                                            description,
                                            version,
                                            serial,
                                            location,
                                            body,
                                        },
                                    ),
                                },
                            },
                        },
                    },
                },
            },
        }
    }
}

/// A controller listed by the SDK server.
#[derive(Debug, Clone)]
pub struct OpenRgbController {
    pub metadata: LightingControllerMetadata,
    pub active_mode: i32,
    pub modes: Vec<OpenRgbMode>,
}

/// The metadata of each mode repeats what the mode itself holds.
pub open spec fn mode_metadata_of(meta: Seq<LightingModeMetadata>, modes: Seq<ModeView>) -> bool {
    &&& meta.len() == modes.len()
    &&& forall|i: int|
        0 <= i < meta.len() ==> {
            &&& #[trigger] meta[i].index == modes[i].index
            &&& meta[i].name@ == modes[i].name
            &&& meta[i].speed_min == modes[i].speed_min
            &&& meta[i].speed_max == modes[i].speed_max
            &&& meta[i].brightness_min == modes[i].brightness_min
            &&& meta[i].brightness_max == modes[i].brightness_max
        }
}

impl OpenRgbController {
    /// This controller is controller `index`, read as `v` under `protocol`.
    pub open spec fn is_read_as(&self, index: u32, protocol: u32, v: ControllerView) -> bool {
        &&& self.metadata.backend_device_id@ == dec_str(index as nat)
        &&& self.metadata.name@ == v.name
        &&& self.metadata.vendor@ == v.vendor
        &&& self.metadata.description@ == v.description
        &&& self.metadata.version@ == v.version
        &&& self.metadata.serial@ == v.serial
        &&& self.metadata.location@ == v.location
        &&& self.metadata.led_count == v.body.led_count
        &&& mode_metadata_of(self.metadata.modes@, v.body.modes)
        &&& zone_views(self.metadata.zones@) == v.body.zones
        &&& self.metadata.protocol_version == protocol
        &&& self.active_mode == v.body.active_mode
        &&& mode_views(self.modes@) == v.body.modes
    }
}

pub open spec fn prepend<T>(acc: Seq<T>, r: Read<Seq<T>>) -> Read<Seq<T>> {
    match r {
        Ok((s, q)) => Ok((acc + s, q)),
        Err(m) => Err(m),
    }
}

proof fn lemma_prepend_step<T>(acc: Seq<T>, x: T, r: Read<Seq<T>>)
    ensures
        prepend(
            acc,
            match r {
                Err(m) => Err(m),
                Ok((rest, q)) => Ok((seq![x] + rest, q)),
            },
        ) == prepend(acc.push(x), r),
{
    match r {
        Ok((rest, q)) => {
            assert(acc + (seq![x] + rest) =~= acc.push(x) + rest);
        },
        Err(m) => {},
    }
}

fn read_colors(d: &[u8], p: usize, n: u16) -> (r: Vec<u32>)
    requires
        p + 4 * n <= d@.len(),
    ensures
        r@ == colors_at(d@, p as int, n as nat),
{
    let mut out: Vec<u32> = Vec::new();
    let mut k: u16 = 0;
    while k < n
        invariant
            k <= n,
            d@.len() == d.len(),
            p + 4 * n <= d@.len(),
            out@ == colors_at(d@, p as int, k as nat),
        decreases n - k,
    {
        out.push(read_u32_at(d, p + 4 * (k as usize)));
        assert(out@ =~= colors_at(d@, p as int, (k + 1) as nat));
        k = k + 1;
    }
    out
}

fn read_mode(d: &[u8], p: usize, protocol: u32, index: u32) -> (r: Result<
    (OpenRgbMode, usize),
    BackendError,
>)
    requires
        p <= d@.len(),
    ensures
        match rd_mode(d@, p as int, protocol, index) {
            Ok((m, q)) => r matches Ok((mm, q2)) && mm@ == m && q2 == q && q <= d@.len(),
            Err(m) => r matches Err(BackendError::Protocol(e)) && e@ == m,
        },
{
    assert(d@.len() == d.len());
    let (name, q) = match read_str(d, p) {
        Ok(x) => x,
        Err(e) => return Err(e),
    };
    let v3 = protocol >= 3;
    let e: usize = if v3 {
        8
    } else {
        0
    };
    let f: usize = if v3 {
        12
    } else {
        0
    };
    let fixed: usize = if v3 {
        50
    } else {
        38
    };
    if d.len() - q < fixed {
        return Err(protocol_error("truncated OpenRGB controller data"));
    }
    let raw_n = read_u16_at(d, q + 36 + f);
    let n: u16 = if raw_n < 1024 {
        raw_n
    } else {
        1024
    };
    let c0 = q + 38 + f;
    if d.len() - c0 < 4 * (n as usize) {
        return Err(protocol_error("truncated OpenRGB controller data"));
    }
    let colors = read_colors(d, c0, n);
    let mode = OpenRgbMode {
        index,
        name,
        value: read_u32_at(d, q) as i32,
        flags: read_u32_at(d, q + 4),
        speed_min: read_u32_at(d, q + 8),
        speed_max: read_u32_at(d, q + 12),
        brightness_min: if v3 {
            Some(read_u32_at(d, q + 16))
        } else {
            None
        },
        brightness_max: if v3 {
            Some(read_u32_at(d, q + 20))
        } else {
            None
        },
        colors_min: read_u32_at(d, q + 16 + e),
        colors_max: read_u32_at(d, q + 20 + e),
        speed: read_u32_at(d, q + 24 + e),
        brightness: if v3 {
            Some(read_u32_at(d, q + 36))
        } else {
            None
        },
        direction: read_u32_at(d, q + 28 + f),
        color_mode: read_u32_at(d, q + 32 + f),
        colors,
    };
    Ok((mode, c0 + 4 * (n as usize)))
}

fn read_modes(d: &[u8], p: usize, protocol: u32, n: u16) -> (r: Result<
    (Vec<OpenRgbMode>, usize),
    BackendError,
>)
    requires
        p <= d@.len(),
    ensures
        match rd_modes(d@, p as int, protocol, 0, n as nat) {
            Ok((ms, q)) => r matches Ok((v, q2)) && mode_views(v@) == ms && q2 == q && q <= d@.len(),
            Err(m) => r matches Err(BackendError::Protocol(e)) && e@ == m,
        },
{
    let mut modes: Vec<OpenRgbMode> = Vec::new();
    let mut pos = p;
    let mut k: u16 = 0;
    assert(mode_views(modes@) =~= Seq::<ModeView>::empty());
    assert(Seq::<ModeView>::empty() + Seq::<ModeView>::empty() =~= Seq::<ModeView>::empty());
    while k < n
        invariant
            pos <= d@.len(),
            d@.len() == d.len(),
            k <= n,
            rd_modes(d@, p as int, protocol, 0, n as nat) == prepend(
                mode_views(modes@),
                rd_modes(d@, pos as int, protocol, k as nat, (n - k) as nat),
            ),
        decreases n - k,
    {
        match read_mode(d, pos, protocol, k as u32) {
            Ok((m, q)) => {
                proof {
                    lemma_prepend_step(
                        mode_views(modes@),
                        m@,
                        rd_modes(d@, q as int, protocol, (k + 1) as nat, (n - k - 1) as nat),
                    );
                }
                let ghost before = modes@;
                modes.push(m);
                assert(mode_views(modes@) =~= mode_views(before).push(m@));
                pos = q;
            },
            Err(e) => return Err(e),
        }
        k = k + 1;
    }
    assert(mode_views(modes@) + Seq::<ModeView>::empty() =~= mode_views(modes@));
    Ok((modes, pos))
}

fn skip_segment_list(d: &[u8], p: usize, n: u16) -> (r: Result<usize, BackendError>)
    requires
        p <= d@.len(),
    ensures
        match skip_segments(d@, p as int, n as nat) {
            Ok(q) => r matches Ok(q2) && q2 == q && q <= d@.len(),
            Err(m) => r matches Err(BackendError::Protocol(e)) && e@ == m,
        },
{
    let mut pos = p;
    let mut k: u16 = 0;
    while k < n
        invariant
            pos <= d@.len(),
            d@.len() == d.len(),
            k <= n,
            skip_segments(d@, p as int, n as nat) == skip_segments(
                d@,
                pos as int,
                (n - k) as nat,
            ),
        decreases n - k,
    {
        let q = match skip_string(d, pos) {
            Ok(q) => q,
            Err(e) => return Err(e),
        };
        if d.len() - q < 12 {
            return Err(protocol_error("truncated OpenRGB controller data"));
        }
        pos = q + 12;
        k = k + 1;
    }
    Ok(pos)
}

fn read_zone(d: &[u8], p: usize, protocol: u32, index: u32) -> (r: Result<
    (LightingZoneMetadata, usize),
    BackendError,
>)
    requires
        p <= d@.len(),
    ensures
        match rd_zone(d@, p as int, protocol, index) {
            Ok((z, q)) => r matches Ok((zz, q2)) && zone_view(zz) == z && q2 == q && q <= d@.len(),
            Err(m) => r matches Err(BackendError::Protocol(e)) && e@ == m,
        },
{
    assert(d@.len() == d.len());
    let (name, q) = match read_str(d, p) {
        Ok(x) => x,
        Err(e) => return Err(e),
    };
    if d.len() - q < 18 {
        return Err(protocol_error("truncated OpenRGB controller data"));
    }
    let count = read_u32_at(d, q + 12);
    let matrix = read_u16_at(d, q + 16) as usize;
    if d.len() - (q + 18) < matrix {
        return Err(protocol_error("truncated OpenRGB controller data"));
    }
    let mut pos = q + 18 + matrix;
    if protocol >= 4 {
        if d.len() - pos < 2 {
            return Err(protocol_error("truncated OpenRGB controller data"));
        }
        let raw = read_u16_at(d, pos);
        let segments: u16 = if raw < 4096 {
            raw
        } else {
            4096
        };
        pos = match skip_segment_list(d, pos + 2, segments) {
            Ok(q3) => q3,
            Err(e) => return Err(e),
        };
    }
    if protocol >= 5 {
        if d.len() - pos < 4 {
            return Err(protocol_error("truncated OpenRGB controller data"));
        }
        pos = pos + 4;
    }
    Ok((LightingZoneMetadata { index, name, led_count: count }, pos))
}

fn read_zones(d: &[u8], p: usize, protocol: u32, n: u16) -> (r: Result<
    (Vec<LightingZoneMetadata>, usize),
    BackendError,
>)
    requires
        p <= d@.len(),
    ensures
        match rd_zones(d@, p as int, protocol, 0, n as nat) {
            Ok((zs, q)) => r matches Ok((v, q2)) && zone_views(v@) == zs && q2 == q && q <= d@.len(),
            Err(m) => r matches Err(BackendError::Protocol(e)) && e@ == m,
        },
{
    let mut zones: Vec<LightingZoneMetadata> = Vec::new();
    let mut pos = p;
    let mut k: u16 = 0;
    assert(zone_views(zones@) =~= Seq::<ZoneView>::empty());
    assert(Seq::<ZoneView>::empty() + Seq::<ZoneView>::empty() =~= Seq::<ZoneView>::empty());
    while k < n
        invariant
            pos <= d@.len(),
            d@.len() == d.len(),
            k <= n,
            rd_zones(d@, p as int, protocol, 0, n as nat) == prepend(
                zone_views(zones@),
                rd_zones(d@, pos as int, protocol, k as nat, (n - k) as nat),
            ),
        decreases n - k,
    {
        match read_zone(d, pos, protocol, k as u32) {
            Ok((z, q)) => {
                proof {
                    lemma_prepend_step(
                        zone_views(zones@),
                        zone_view(z),
                        rd_zones(d@, q as int, protocol, (k + 1) as nat, (n - k - 1) as nat),
                    );
                }
                let ghost before = zones@;
                zones.push(z);
                assert(zone_views(zones@) =~= zone_views(before).push(zone_view(z)));
                pos = q;
            },
            Err(e) => return Err(e),
        }
        k = k + 1;
    }
    assert(zone_views(zones@) + Seq::<ZoneView>::empty() =~= zone_views(zones@));
    Ok((zones, pos))
}

fn skip_led_list(d: &[u8], p: usize, n: u16) -> (r: Result<usize, BackendError>)
    requires
        p <= d@.len(),
    ensures
        match skip_leds(d@, p as int, n as nat) {
            Ok(q) => r matches Ok(q2) && q2 == q && q <= d@.len(),
            Err(m) => r matches Err(BackendError::Protocol(e)) && e@ == m,
        },
{
    let mut pos = p;
    let mut k: u16 = 0;
    while k < n
        invariant
            pos <= d@.len(),
            d@.len() == d.len(),
            k <= n,
            skip_leds(d@, p as int, n as nat) == skip_leds(d@, pos as int, (n - k) as nat),
        decreases n - k,
    {
        let q = match skip_string(d, pos) {
            Ok(q) => q,
            Err(e) => return Err(e),
        };
        if d.len() - q < 4 {
            return Err(protocol_error("truncated OpenRGB controller data"));
        }
        pos = q + 4;
        k = k + 1;
    }
    Ok(pos)
}

fn skip_string_list(d: &[u8], p: usize, n: u16) -> (r: Result<usize, BackendError>)
    requires
        p <= d@.len(),
    ensures
        match skip_strs(d@, p as int, n as nat) {
            Ok(q) => r matches Ok(q2) && q2 == q && q <= d@.len(),
            Err(m) => r matches Err(BackendError::Protocol(e)) && e@ == m,
        },
{
    let mut pos = p;
    let mut k: u16 = 0;
    while k < n
        invariant
            pos <= d@.len(),
            d@.len() == d.len(),
            k <= n,
            skip_strs(d@, p as int, n as nat) == skip_strs(d@, pos as int, (n - k) as nat),
        decreases n - k,
    {
        pos = match skip_string(d, pos) {
            Ok(q) => q,
            Err(e) => return Err(e),
        };
        k = k + 1;
    }
    Ok(pos)
}

fn read_tail(d: &[u8], p: usize, protocol: u32) -> (r: Result<u16, BackendError>)
    requires
        p <= d@.len(),
    ensures
        match rd_tail(d@, p as int, protocol) {
            Ok(n) => r == Ok::<u16, BackendError>(n),
            Err(m) => r matches Err(BackendError::Protocol(e)) && e@ == m,
        },
{
    assert(d@.len() == d.len());
    if d.len() - p < 2 {
        return Err(protocol_error("truncated OpenRGB controller data"));
    }
    let leds = read_u16_at(d, p);
    let q = match skip_led_list(d, p + 2, leds) {
        Ok(q) => q,
        Err(e) => return Err(e),
    };
    if d.len() - q < 2 {
        return Err(protocol_error("truncated OpenRGB controller data"));
    }
    let colors = read_u16_at(d, q) as usize;
    if d.len() - (q + 2) < 4 * colors {
        return Err(protocol_error("truncated OpenRGB controller data"));
    }
    let q2 = q + 2 + 4 * colors;
    if protocol < 5 {
        return Ok(leds);
    }
    if d.len() - q2 < 2 {
        return Err(protocol_error("truncated OpenRGB controller data"));
    }
    let alt = read_u16_at(d, q2);
    let q3 = match skip_string_list(d, q2 + 2, alt) {
        Ok(q3) => q3,
        Err(e) => return Err(e),
    };
    if d.len() - q3 < 4 {
        return Err(protocol_error("truncated OpenRGB controller data"));
    }
    Ok(leds)
}


fn read_body(d: &[u8], p: usize, protocol: u32) -> (r: Result<
    (i32, Vec<OpenRgbMode>, Vec<LightingZoneMetadata>, u16),
    BackendError,
>)
    requires
        p <= d@.len(),
    ensures
        match rd_body(d@, p as int, protocol) {
            Ok(b) => r matches Ok((am, ms, zs, leds)) && am == b.active_mode && mode_views(ms@)
                == b.modes && zone_views(zs@) == b.zones && leds == b.led_count,
            Err(m) => r matches Err(BackendError::Protocol(e)) && e@ == m,
        },
{
    assert(d@.len() == d.len());
    if d.len() - p < 6 {
        return Err(protocol_error("truncated OpenRGB controller data"));
    }
    let raw_modes = read_u16_at(d, p);
    let num_modes: u16 = if raw_modes < 256 {
        raw_modes
    } else {
        256
    };
    let active_mode = read_u32_at(d, p + 2) as i32;
    let (modes, q) = match read_modes(d, p + 6, protocol, num_modes) {
        Ok(x) => x,
        Err(e) => return Err(e),
    };
    if d.len() - q < 2 {
        return Err(protocol_error("truncated OpenRGB controller data"));
    }
    let raw_zones = read_u16_at(d, q);
    let num_zones: u16 = if raw_zones < 1024 {
        raw_zones
    } else {
        1024
    };
    let (zones, q2) = match read_zones(d, q + 2, protocol, num_zones) {
        Ok(x) => x,
        Err(e) => return Err(e),
    };
    let leds = match read_tail(d, q2, protocol) {
        Ok(n) => n,
        Err(e) => return Err(e),
    };
    Ok((active_mode, modes, zones, leds))
}

fn mode_metadata(modes: &Vec<OpenRgbMode>) -> (r: Vec<LightingModeMetadata>)
    ensures
        mode_metadata_of(r@, mode_views(modes@)),
{
    let mut out: Vec<LightingModeMetadata> = Vec::new();
    let mut i: usize = 0;
    while i < modes.len()
        invariant
            i <= modes@.len(),
            out@.len() == i,
            forall|j: int|
                0 <= j < i ==> {
                    &&& #[trigger] out@[j].index == modes@[j].index
                    &&& out@[j].name@ == modes@[j].name@
                    &&& out@[j].speed_min == modes@[j].speed_min
                    &&& out@[j].speed_max == modes@[j].speed_max
                    &&& out@[j].brightness_min == modes@[j].brightness_min
                    &&& out@[j].brightness_max == modes@[j].brightness_max
                },
        decreases modes@.len() - i,
    {
        let m = &modes[i];
        out.push(
            LightingModeMetadata {
                index: m.index,
                name: copy_string(&m.name),
                speed_min: m.speed_min,
                speed_max: m.speed_max,
                brightness_min: m.brightness_min,
                brightness_max: m.brightness_max,
            },
        );
        i = i + 1;
    }
    proof {
        let mv = mode_views(modes@);
        assert forall|j: int| 0 <= j < out@.len() implies #[trigger] out@[j].index == mv[j].index
            && out@[j].name@ == mv[j].name && out@[j].speed_min == mv[j].speed_min
            && out@[j].speed_max == mv[j].speed_max && out@[j].brightness_min
            == mv[j].brightness_min && out@[j].brightness_max == mv[j].brightness_max by {
            assert(mv[j] == modes@[j]@);
        }
    }
    out
}

/// Reads the controller-data block of controller `index` under the
/// negotiated `protocol`: exactly what `parse_spec` describes, or the
/// protocol error that says where the block is malformed.
pub fn parse_controller(index: u32, protocol: u32, data: &[u8]) -> (r: Result<
    OpenRgbController,
    BackendError,
>)
    ensures
        match parse_spec(protocol, data@) {
            Ok(v) => r matches Ok(c) && c.is_read_as(index, protocol, v),
            Err(m) => r matches Err(BackendError::Protocol(e)) && e@ == m,
        },
{
    let d = data;
    assert(d@.len() == d.len());
    if d.len() < 4 {
        return Err(protocol_error("truncated OpenRGB controller data"));
    }
    let declared = read_u32_at(d, 0) as u64;
    if declared > d.len() as u64 || declared < 4 {
        return Err(protocol_error("invalid OpenRGB controller data size"));
    }
    if d.len() < 8 {
        return Err(protocol_error("truncated OpenRGB controller data"));
    }
    let (name, q1) = match read_str(d, 8) {
        Ok(x) => x,
        Err(e) => return Err(e),
    };
    let (vendor, q2) = if protocol >= 1 {
        match read_str(d, q1) {
            Ok(x) => x,
            Err(e) => return Err(e),
        }
    } else {
        (String::new(), q1)
    };
    let (description, q3) = match read_str(d, q2) {
        Ok(x) => x,
        Err(e) => return Err(e),
    };
    let (version, q4) = match read_str(d, q3) {
        Ok(x) => x,
        Err(e) => return Err(e),
    };
    let (serial, q5) = match read_str(d, q4) {
        Ok(x) => x,
        Err(e) => return Err(e),
    };
    let (location, q6) = match read_str(d, q5) {
        Ok(x) => x,
        Err(e) => return Err(e),
    };
    let (active_mode, modes, zones, led_count) = match read_body(d, q6, protocol) {
        Ok(x) => x,
        Err(e) => return Err(e),
    };
    let metadata = LightingControllerMetadata {
        backend_device_id: string_from(&fmt_dec(index as u64)),
        name,
        vendor,
        description,
        version,
        serial,
        location,
        led_count,
        modes: mode_metadata(&modes),
        zones,
        protocol_version: protocol,
    };
    Ok(OpenRgbController { metadata, active_mode, modes })
}


// ------------------------------------------------------------ requests

pub open spec fn opt_or(o: Option<u32>, d: u32) -> u32 {
    match o {
        Some(v) => v,
        None => d,
    }
}

/// Each colour as a little-endian `u32`.
pub open spec fn colors_bytes(c: Seq<u32>) -> Seq<u8>
    decreases c.len(),
{
    if c.len() == 0 {
        Seq::empty()
    } else {
        colors_bytes(c.drop_last()) + le32(c.last())
    }
}

/// A mode as `UPDATE_MODE` carries it: the zero-terminated UTF-8 name with
/// its length in front, the fields (brightness from protocol 3 on, with
/// 0, 100 and 100 for what the mode lacks), the colour count and colours.
pub open spec fn mode_bytes(m: ModeView, protocol: u32) -> Seq<u8> {
    let name = encode_utf8(m.name).push(0u8);
    le16(name.len() as u16) + name + le32(m.value as u32) + le32(m.flags) + le32(m.speed_min)
        + le32(m.speed_max) + (if protocol >= 3 {
        le32(opt_or(m.brightness_min, 0)) + le32(opt_or(m.brightness_max, 100))
    } else {
        Seq::empty()
    }) + le32(m.colors_min) + le32(m.colors_max) + le32(m.speed) + (if protocol >= 3 {
        le32(opt_or(m.brightness, 100))
    } else {
        Seq::empty()
    }) + le32(m.direction) + le32(m.color_mode) + le16(m.colors.len() as u16) + colors_bytes(
        m.colors,
    )
}

pub proof fn lemma_colors_bytes_len(c: Seq<u32>)
    ensures
        colors_bytes(c).len() == 4 * c.len(),
    decreases c.len(),
{
    if c.len() > 0 {
        lemma_colors_bytes_len(c.drop_last());
    }
}

fn push_bytes(out: &mut Vec<u8>, b: &[u8])
    ensures
        final(out)@ == old(out)@ + b@,
{
    let ghost start = out@;
    let mut i: usize = 0;
    while i < b.len()
        invariant
            i <= b@.len(),
            out@ == start + b@.take(i as int),
        decreases b@.len() - i,
    {
        out.push(b[i]);
        assert(start + b@.take(i as int + 1) =~= start + b@.take(i as int) + seq![b@[i as int]]);
        i = i + 1;
    }
    assert(b@.take(b@.len() as int) == b@);
}

/// Encodes a mode; a name of 65535 bytes or more, or more than 65535
/// colours, cannot be sent.
pub fn encode_mode(mode: &OpenRgbMode, protocol: u32) -> (r: Result<Vec<u8>, BackendError>)
    ensures
        r is Ok <==> encode_utf8(mode.name@).len() + 1 <= 65535 && mode.colors@.len() <= 65535,
        r matches Ok(b) ==> b@ == mode_bytes(mode@, protocol),
        encode_utf8(mode.name@).len() + 1 > 65535 ==> (r matches Err(BackendError::Invalid(m))
            && m@ == "OpenRGB mode name too long"@),
        encode_utf8(mode.name@).len() + 1 <= 65535 && mode.colors@.len() > 65535 ==> (r matches Err(
            BackendError::Invalid(m),
        ) && m@ == "too many OpenRGB mode colors"@),
{
    let name_bytes = mode.name.as_str().as_bytes();
    if name_bytes.len() >= 65535 {
        return Err(invalid_error("OpenRGB mode name too long"));
    }
    let v3 = protocol >= 3;
    let mut out: Vec<u8> = Vec::new();
    push_le16(&mut out, (name_bytes.len() + 1) as u16);
    push_bytes(&mut out, name_bytes);
    out.push(0u8);
    push_le32(&mut out, mode.value as u32);
    push_le32(&mut out, mode.flags);
    push_le32(&mut out, mode.speed_min);
    push_le32(&mut out, mode.speed_max);
    let ghost a = out@;
    if v3 {
        push_le32(
            &mut out,
            match mode.brightness_min {
                Some(v) => v,
                None => 0,
            },
        );
        push_le32(
            &mut out,
            match mode.brightness_max {
                Some(v) => v,
                None => 100,
            },
        );
    }
    push_le32(&mut out, mode.colors_min);
    push_le32(&mut out, mode.colors_max);
    push_le32(&mut out, mode.speed);
    let ghost b = out@;
    if v3 {
        push_le32(
            &mut out,
            match mode.brightness {
                Some(v) => v,
                None => 100,
            },
        );
    }
    push_le32(&mut out, mode.direction);
    push_le32(&mut out, mode.color_mode);
    if mode.colors.len() > 65535 {
        return Err(invalid_error("too many OpenRGB mode colors"));
    }
    push_le16(&mut out, mode.colors.len() as u16);
    let ghost c = out@;
    let mut i: usize = 0;
    while i < mode.colors.len()
        invariant
            i <= mode.colors@.len(),
            out@ == c + colors_bytes(mode.colors@.take(i as int)),
        decreases mode.colors@.len() - i,
    {
        push_le32(&mut out, mode.colors[i]);
        assert(mode.colors@.take(i as int + 1).drop_last() == mode.colors@.take(i as int));
        i = i + 1;
    }
    assert(mode.colors@.take(mode.colors@.len() as int) == mode.colors@);
    let ghost name = encode_utf8(mode.name@).push(0u8);
    assert(out@ =~= mode_bytes(mode@, protocol));
    Ok(out)
}

/// How many colours a recoloured mode carries: its current count raised to
/// `colors_min` and capped at the larger of `colors_max` and `colors_min`.
pub open spec fn color_count(m: ModeView) -> int {
    let lo = if m.colors.len() < m.colors_min {
        m.colors_min as int
    } else {
        m.colors.len() as int
    };
    let hi = if m.colors_max < m.colors_min {
        m.colors_min as int
    } else {
        m.colors_max as int
    };
    if lo < hi {
        lo
    } else {
        hi
    }
}

/// A mode with the requested speed, brightness (from protocol 3 on, where
/// the mode has a brightness range) and colour applied.
pub open spec fn updated_view(
    m: ModeView,
    protocol: u32,
    brightness_pct: u8,
    speed_pct: Option<u8>,
    color: Option<Seq<u8>>,
) -> ModeView {
    let speed = match speed_pct {
        Some(p) => scaled(p, m.speed_min, m.speed_max) as u32,
        None => m.speed,
    };
    let brightness = if protocol >= 3 && m.brightness_min is Some && m.brightness_max is Some {
        Some(scaled(brightness_pct, m.brightness_min->0, m.brightness_max->0) as u32)
    } else {
        m.brightness
    };
    let colors = match color {
        Some(c) => if color_count(m) > 0 {
            Seq::new(color_count(m) as nat, |i: int| rgb_value(c) as u32)
        } else {
            m.colors
        },
        None => m.colors,
    };
    ModeView { speed, brightness, colors, ..m }
}

pub open spec fn color_view(color: Option<[u8; 3]>) -> Option<Seq<u8>> {
    match color {
        Some(c) => Some(c@),
        None => None,
    }
}

fn copy_colors(v: &Vec<u32>) -> (r: Vec<u32>)
    ensures
        r@ == v@,
{
    let mut out: Vec<u32> = Vec::new();
    let mut i: usize = 0;
    while i < v.len()
        invariant
            i <= v@.len(),
            out@ == v@.take(i as int),
        decreases v@.len() - i,
    {
        out.push(v[i]);
        i = i + 1;
    }
    assert(v@.take(v@.len() as int) == v@);
    out
}

pub fn updated_mode(
    mode: &OpenRgbMode,
    protocol: u32,
    brightness_pct: u8,
    speed_pct: Option<u8>,
    color: Option<[u8; 3]>,
) -> (r: OpenRgbMode)
    ensures
        r@ == updated_view(mode@, protocol, brightness_pct, speed_pct, color_view(color)),
{
    let speed = match speed_pct {
        Some(p) => scale_percent(p, mode.speed_min, mode.speed_max),
        None => mode.speed,
    };
    let brightness = if protocol >= 3 {
        match (mode.brightness_min, mode.brightness_max) {
            (Some(min), Some(max)) => Some(scale_percent(brightness_pct, min, max)),
            _ => mode.brightness,
        }
    } else {
        mode.brightness
    };
    let colors = match color {
        Some(c) => {
            let len = mode.colors.len();
            let lo: u64 = if (len as u64) < mode.colors_min as u64 {
                mode.colors_min as u64
            } else {
                len as u64
            };
            let hi: u64 = if mode.colors_max < mode.colors_min {
                mode.colors_min as u64
            } else {
                mode.colors_max as u64
            };
            let count: u64 = if lo < hi {
                lo
            } else {
                hi
            };
            if count > 0 {
                let rgb = rgb_color(c);
                let mut out: Vec<u32> = Vec::new();
                let mut i: u64 = 0;
                while i < count
                    invariant
                        i <= count,
                        out@ == Seq::new(i as nat, |k: int| rgb),
                    decreases count - i,
                {
                    out.push(rgb);
                    assert(out@ =~= Seq::new((i + 1) as nat, |k: int| rgb));
                    i = i + 1;
                }
                assert(out@ =~= Seq::new(count as nat, |k: int| rgb_value(c@) as u32));
                out
            } else {
                copy_colors(&mode.colors)
            }
        },
        None => copy_colors(&mode.colors),
    };
    OpenRgbMode {
        index: mode.index,
        name: copy_string(&mode.name),
        value: mode.value,
        flags: mode.flags,
        speed_min: mode.speed_min,
        speed_max: mode.speed_max,
        brightness_min: mode.brightness_min,
        brightness_max: mode.brightness_max,
        colors_min: mode.colors_min,
        colors_max: mode.colors_max,
        speed,
        brightness,
        direction: mode.direction,
        color_mode: mode.color_mode,
        colors,
    }
}

/// The `UPDATE_MODE` payload: its total size, the mode's index, then the
/// encoded mode.
pub open spec fn update_bytes(m: ModeView, protocol: u32) -> Seq<u8> {
    le32((8 + mode_bytes(m, protocol).len()) as u32) + le32(m.index) + mode_bytes(m, protocol)
}

/// The payload that switches a controller to `mode` with the requested
/// brightness, speed and colour.
pub fn mode_update_payload(
    mode: &OpenRgbMode,
    protocol: u32,
    brightness_pct: u8,
    speed_pct: Option<u8>,
    color: Option<[u8; 3]>,
) -> (r: Result<Vec<u8>, BackendError>)
    ensures
        ({
            let u = updated_view(mode@, protocol, brightness_pct, speed_pct, color_view(color));
            &&& r is Ok <==> encode_utf8(u.name).len() + 1 <= 65535 && u.colors.len() <= 65535
            &&& r matches Ok(b) ==> b@ == update_bytes(u, protocol)
            &&& r matches Err(e) ==> e is Invalid
        }),
{
    let updated = updated_mode(mode, protocol, brightness_pct, speed_pct, color);
    let data = match encode_mode(&updated, protocol) {
        Ok(d) => d,
        Err(e) => return Err(e),
    };
    proof {
        lemma_colors_bytes_len(updated@.colors);
    }
    let total: u32 = 8u32 + data.len() as u32;
    let mut out: Vec<u8> = Vec::new();
    push_le32(&mut out, total);
    let idx = updated.index;
    let wire = idx as i32 as u32;
    assert((idx as i32) as u32 == idx) by (bit_vector);
    push_le32(&mut out, wire);
    push_bytes(&mut out, &data);
    assert(out@ =~= update_bytes(updated@, protocol));
    Ok(out)
}

// ------------------------------------------------------------ lighting

/// What setting a lighting configuration on a controller sends.
#[derive(Debug, Clone, Copy)]
pub enum LightingRequest {
    /// Paint every LED one colour.
    StaticColor { led_count: u16, color: [u8; 3] },
    /// Switch to the controller's mode at index `mode`.
    Mode { mode: usize, brightness_pct: u8, speed_pct: Option<u8>, color: Option<[u8; 3]> },
}

/// The words a mode name is searched for, per effect.
pub open spec fn effect_words(e: LightingEffect) -> Seq<Seq<char>> {
    match e {
        LightingEffect::Breathing => seq!["breath"@, "pulse"@],
        LightingEffect::Wave => seq!["wave"@, "chase"@],
        LightingEffect::Spectrum => seq!["spectrum"@, "rainbow"@, "cycle"@],
        LightingEffect::Static => Seq::empty(),
    }
}

pub open spec fn effect_name(e: LightingEffect) -> Seq<char> {
    match e {
        LightingEffect::Static => "Static"@,
        LightingEffect::Breathing => "Breathing"@,
        LightingEffect::Wave => "Wave"@,
        LightingEffect::Spectrum => "Spectrum"@,
    }
}

/// The mode's name, in ASCII lower case, contains one of the effect's words.
pub open spec fn offers_effect(name: Seq<char>, e: LightingEffect) -> bool {
    exists|k: int| 0 <= k < effect_words(e).len() && contains(lowercase(name), #[trigger] effect_words(e)[k])
}

/// `modes[i]` is the first mode that offers the effect.
pub open spec fn first_offering(modes: Seq<ModeView>, e: LightingEffect, i: int) -> bool {
    &&& 0 <= i < modes.len()
    &&& offers_effect(modes[i].name, e)
    &&& forall|j: int| 0 <= j < i ==> !offers_effect(#[trigger] modes[j].name, e)
}

/// Which OpenRGB modes offer an effect, by the words their lower-cased names
/// are searched for: "breath" or "pulse" for breathing, "wave" or "chase" for
/// a wave, "spectrum", "rainbow" or "cycle" for the spectrum; no mode offers
/// a static colour, which is painted directly.
pub proof fn law_effect_words(name: Seq<char>, e: LightingEffect)
    ensures
        offers_effect(name, e) <==> match e {
            LightingEffect::Static => false,
            LightingEffect::Breathing => contains(lowercase(name), "breath"@) || contains(
                lowercase(name),
                "pulse"@,
            ),
            LightingEffect::Wave => contains(lowercase(name), "wave"@) || contains(lowercase(name), "chase"@),
            LightingEffect::Spectrum => contains(lowercase(name), "spectrum"@) || contains(
                lowercase(name),
                "rainbow"@,
            ) || contains(lowercase(name), "cycle"@),
        },
{
    let w = effect_words(e);
    match e {
        LightingEffect::Breathing => {
            assert(w[0] == "breath"@ && w[1] == "pulse"@);
        },
        LightingEffect::Wave => {
            assert(w[0] == "wave"@ && w[1] == "chase"@);
        },
        LightingEffect::Spectrum => {
            assert(w[0] == "spectrum"@ && w[1] == "rainbow"@ && w[2] == "cycle"@);
        },
        LightingEffect::Static => {},
    }
}

/// A static colour is painted at the configured brightness: each channel
/// scaled by the brightness percentage (rounded down), at most 100 %.
pub proof fn law_static_colour_dimming(c: u8, brightness: u8)
    ensures
        dimmed(c, brightness) == (if brightness >= 100 {
            c as int
        } else {
            (c as int * brightness as int) / 100
        }),
        dimmed(c, 0) == 0,
        brightness >= 100 ==> dimmed(c, brightness) == c,
        0 <= dimmed(c, brightness) <= c,
{
    assert(c as int * 100 / 100 == c as int);
    assert(0 <= (c as int * brightness as int) / 100) by (nonlinear_arith);
    if brightness < 100 {
        assert((c as int * brightness as int) / 100 <= c as int) by (nonlinear_arith)
            requires
                brightness < 100,
                0 <= c,
        ;
    }
}

/// The names a refused effect is called by.
pub proof fn law_effect_names(e: LightingEffect)
    ensures
        effect_name(e) == match e {
            LightingEffect::Static => "Static"@,
            LightingEffect::Breathing => "Breathing"@,
            LightingEffect::Wave => "Wave"@,
            LightingEffect::Spectrum => "Spectrum"@,
        },
{
}

/// The mode a lighting plan switches to is the first one that offers the
/// effect: it offers it, and no mode before it does.
pub proof fn law_plan_takes_first_offering_mode(modes: Seq<ModeView>, e: LightingEffect, i: int)
    ensures
        first_offering(modes, e, i) <==> (0 <= i < modes.len() && offers_effect(modes[i].name, e)
            && forall|j: int| 0 <= j < i ==> !offers_effect(#[trigger] modes[j].name, e)),
        forall|k: int| #[trigger] first_offering(modes, e, k) && first_offering(modes, e, i) ==> k == i,
{
    assert forall|k: int| #[trigger] first_offering(modes, e, k) && first_offering(modes, e, i) implies k
        == i by {
        if k < i {
            assert(!offers_effect(modes[k].name, e));
        } else if i < k {
            assert(!offers_effect(modes[i].name, e));
        }
    }
}

/// A colour channel at a brightness percentage (capped at 100).
pub open spec fn dimmed(c: u8, brightness: u8) -> int {
    c * (if brightness < 100 {
        brightness as int
    } else {
        100
    }) / 100
}

fn dim(c: u8, brightness: u8) -> (r: u8)
    ensures
        r == dimmed(c, brightness),
{
    let b: u16 = if brightness < 100 {
        brightness as u16
    } else {
        100
    };
    let c16 = c as u16;
    assert(c16 * b <= 255 * 100) by (nonlinear_arith)
        requires
            b <= 100,
            c16 <= 255,
    ;
    let v: u16 = c16 * b;
    assert(v / 100 <= 255);
    (v / 100) as u8
}

fn words_for(e: LightingEffect) -> (r: Vec<Vec<char>>)
    ensures
        r@.len() == effect_words(e).len(),
        forall|k: int| 0 <= k < r@.len() ==> #[trigger] r@[k]@ == effect_words(e)[k],
{
    let mut r: Vec<Vec<char>> = Vec::new();
    match e {
        LightingEffect::Breathing => {
            r.push(str_chars("breath"));
            r.push(str_chars("pulse"));
        },
        LightingEffect::Wave => {
            r.push(str_chars("wave"));
            r.push(str_chars("chase"));
        },
        LightingEffect::Spectrum => {
            r.push(str_chars("spectrum"));
            r.push(str_chars("rainbow"));
            r.push(str_chars("cycle"));
        },
        LightingEffect::Static => {},
    }
    r
}

fn name_offers(name: &String, words: &Vec<Vec<char>>, e: LightingEffect) -> (r: bool)
    requires
        words@.len() == effect_words(e).len(),
        forall|k: int| 0 <= k < words@.len() ==> #[trigger] words@[k]@ == effect_words(e)[k],
    ensures
        r == offers_effect(name@, e),
{
    let lower = to_lowercase(&str_chars(name.as_str()));
    let mut k: usize = 0;
    while k < words.len()
        invariant
            k <= words@.len(),
            lower@ == lowercase(name@),
            words@.len() == effect_words(e).len(),
            forall|j: int| 0 <= j < words@.len() ==> #[trigger] words@[j]@ == effect_words(e)[j],
            forall|j: int| 0 <= j < k ==> !contains(lowercase(name@), #[trigger] effect_words(e)[j]),
        decreases words@.len() - k,
    {
        if contains_sub(&lower, &words[k]) {
            assert(words@[k as int]@ == effect_words(e)[k as int]);
            return true;
        }
        assert(words@[k as int]@ == effect_words(e)[k as int]);
        k = k + 1;
    }
    false
}

/// Plans `config` for a controller: a static colour paints every LED with
/// the colour dimmed to the brightness; another effect switches to the first
/// mode whose name carries one of the effect's words, or is refused.
pub fn plan_lighting(controller: &OpenRgbController, config: &LightingConfig) -> (r: Result<
    LightingRequest,
    BackendError,
>)
    ensures
        config.effect is Static ==> (r matches Ok(LightingRequest::StaticColor { led_count, color })
            && led_count == controller.metadata.led_count && color@ == seq![
            dimmed(config.color[0], config.brightness) as u8,
            dimmed(config.color[1], config.brightness) as u8,
            dimmed(config.color[2], config.brightness) as u8,
        ]),
        !(config.effect is Static) ==> (r is Ok <==> exists|i: int|
            first_offering(mode_views(controller.modes@), config.effect, i)),
        r matches Ok(LightingRequest::Mode { mode, brightness_pct, speed_pct, color }) ==> {
            &&& !(config.effect is Static)
            &&& first_offering(mode_views(controller.modes@), config.effect, mode as int)
            &&& brightness_pct == config.brightness
            &&& speed_pct == Some(config.speed)
            &&& color == Some(config.color)
        },
        r matches Err(e) ==> e matches BackendError::Invalid(m) && m@ == "requested effect "@
            + effect_name(config.effect) + " is not exposed by this OpenRGB controller"@,
{
    if let LightingEffect::Static = config.effect {
        let c = [
            dim(config.color[0], config.brightness),
            dim(config.color[1], config.brightness),
            dim(config.color[2], config.brightness),
        ];
        assert(c@ =~= seq![
            dimmed(config.color[0], config.brightness) as u8,
            dimmed(config.color[1], config.brightness) as u8,
            dimmed(config.color[2], config.brightness) as u8,
        ]);
        return Ok(LightingRequest::StaticColor { led_count: controller.metadata.led_count, color: c });
    }
    let words = words_for(config.effect);
    let ghost mv = mode_views(controller.modes@);
    let mut i: usize = 0;
    while i < controller.modes.len()
        invariant
            i <= controller.modes@.len(),
            mv == mode_views(controller.modes@),
            mv.len() == controller.modes@.len(),
            words@.len() == effect_words(config.effect).len(),
            forall|k: int|
                0 <= k < words@.len() ==> #[trigger] words@[k]@ == effect_words(config.effect)[k],
            forall|j: int| 0 <= j < i ==> !offers_effect(#[trigger] mv[j].name, config.effect),
        decreases controller.modes@.len() - i,
    {
        assert(mv[i as int] == controller.modes@[i as int]@);
        if name_offers(&controller.modes[i].name, &words, config.effect) {
            assert(first_offering(mv, config.effect, i as int));
            return Ok(
                LightingRequest::Mode {
                    mode: i,
                    brightness_pct: config.brightness,
                    speed_pct: Some(config.speed),
                    color: Some(config.color),
                },
            );
        }
        i = i + 1;
    }
    let name = match config.effect {
        LightingEffect::Static => "Static",
        LightingEffect::Breathing => "Breathing",
        LightingEffect::Wave => "Wave",
        LightingEffect::Spectrum => "Spectrum",
    };
    let text = concat(
        &concat(&str_chars("requested effect "), &str_chars(name)),
        &str_chars(" is not exposed by this OpenRGB controller"),
    );
    Err(BackendError::Invalid(string_from(&text)))
}

/// The controller whose id is `index` in decimal, the first if several.
pub fn find_controller(controllers: &[OpenRgbController], index: u32) -> (r: Result<
    usize,
    BackendError,
>)
    ensures
        r matches Ok(i) ==> i < controllers@.len() && controllers@[i as int].metadata.backend_device_id@
            == dec_str(index as nat) && forall|j: int|
            0 <= j < i ==> (#[trigger] controllers@[j]).metadata.backend_device_id@ != dec_str(
                index as nat,
            ),
        r is Err <==> forall|j: int|
            0 <= j < controllers@.len() ==> (#[trigger] controllers@[j]).metadata.backend_device_id@
                != dec_str(index as nat),
        r matches Err(e) ==> e matches BackendError::Invalid(m) && m@ == "OpenRGB controller "@
            + dec_str(index as nat) + " not found"@,
{
    let id = fmt_dec(index as u64);
    let mut i: usize = 0;
    while i < controllers.len()
        invariant
            i <= controllers@.len(),
            id@ == dec_str(index as nat),
            forall|j: int|
                0 <= j < i ==> (#[trigger] controllers@[j]).metadata.backend_device_id@ != dec_str(
                    index as nat,
                ),
        decreases controllers@.len() - i,
    {
        if crate::text::chars_eq(&str_chars(controllers[i].metadata.backend_device_id.as_str()), &id) {
            return Ok(i);
        }
        i = i + 1;
    }
    let text = concat(&concat(&str_chars("OpenRGB controller "), &id), &str_chars(" not found"));
    Err(BackendError::Invalid(string_from(&text)))
}

/// The index of the controller's active mode, refused when it names no mode.
pub fn active_mode_index(controller: &OpenRgbController) -> (r: Result<usize, BackendError>)
    ensures
        r is Ok <==> 0 <= controller.active_mode < controller.modes@.len(),
        r matches Ok(i) ==> i == controller.active_mode,
        r matches Err(e) ==> e matches BackendError::Invalid(m) && m@
            == "OpenRGB controller has no active mode"@,
{
    if controller.active_mode < 0 || controller.active_mode as usize >= controller.modes.len() {
        return Err(invalid_error("OpenRGB controller has no active mode"));
    }
    Ok(controller.active_mode as usize)
}

} // verus!
