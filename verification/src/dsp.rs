//! The microphone DSP's plain decisions: where its profiles and PipeWire
//! drop-ins live, which PipeWire node it targets, the per-device keys, and
//! the fixed header of the packets sent to AetherStream, and when its
//! runtime is started or updated. The signal processing itself works on
//! floating point and is not here.
use crate::daemon::fnv1a;
use crate::firmware::{join_path, join_path_chars};
use crate::model::{DeviceId, ForgeHxError};
use crate::pipewire::{
    first_property, named_source_node_id, pipewire_property, pw_cli_named_node_id,
    scan_named_node, scan_named_source,
};
use crate::text::{
    chars_eq, concat, dec_str, fmt_dec, fmt_hex, hex_str, lines, opt_view, owned, parse_bounded, parse_num, str_chars,
    string_from, trim, trim_ws,
};
use crate::audio::{is_plain_name, plain_name};
use vstd::prelude::*;

verus! {

/// The PipeWire source AetherStream exposes for the processed microphone.
pub const AETHERSTREAM_SYSTEM_SOURCE_NAME: &'static str = "aetherstream.system.microphone";

/// The DSP stays in the capture path permanently.
pub const FORGEHX_PERMANENT_DSP: bool = true;

/// Samples in one 10 ms frame at 48 kHz.
pub const FRAME_SAMPLES: usize = 480;

/// Milliseconds in one frame.
pub const FRAME_MS: u32 = 10;

pub const BRIDGE_VERSION: u16 = 1;

pub const BRIDGE_RATE: u32 = 48000;

pub const BRIDGE_CHANNELS: u16 = 1;

pub const BRIDGE_HEADER_BYTES: usize = 32;

/// The header and one frame of 32-bit samples.
pub const BRIDGE_PACKET_BYTES: usize = 1952;

/// `"AFXHXM01"`.
pub open spec fn bridge_magic_bytes() -> Seq<u8> {
    seq![0x41u8, 0x46u8, 0x58u8, 0x48u8, 0x58u8, 0x4du8, 0x30u8, 0x31u8]
}

pub fn bridge_magic() -> (r: [u8; 8])
    ensures
        r@ == bridge_magic_bytes(),
{
    let r = [0x41u8, 0x46u8, 0x58u8, 0x48u8, 0x58u8, 0x4du8, 0x30u8, 0x31u8];
    assert(r@ =~= bridge_magic_bytes());
    r
}

/// The packet size is the header and a frame of four-byte samples.
pub proof fn law_bridge_packet_size()
    ensures
        BRIDGE_PACKET_BYTES == BRIDGE_HEADER_BYTES + FRAME_SAMPLES * 4,
        FRAME_SAMPLES == BRIDGE_RATE / 1000 * FRAME_MS,
{
}

pub open spec fn le16_bytes(x: u16) -> Seq<u8> {
    seq![x as u8, (x >> 8u16) as u8]
}

pub open spec fn le32_bytes(x: u32) -> Seq<u8> {
    seq![x as u8, (x >> 8u32) as u8, (x >> 16u32) as u8, (x >> 24u32) as u8]
}

pub open spec fn le64_bytes(x: u64) -> Seq<u8> {
    seq![
        x as u8,
        (x >> 8u64) as u8,
        (x >> 16u64) as u8,
        (x >> 24u64) as u8,
        (x >> 32u64) as u8,
        (x >> 40u64) as u8,
        (x >> 48u64) as u8,
        (x >> 56u64) as u8,
    ]
}

/// The header of a bridge packet: magic, version, two zero bytes, sample
/// rate, channel count, samples per frame, sequence number, four zero
/// bytes; little-endian throughout.
pub open spec fn bridge_header_bytes(sequence: u64) -> Seq<u8> {
    bridge_magic_bytes() + le16_bytes(BRIDGE_VERSION) + seq![0u8, 0u8] + le32_bytes(BRIDGE_RATE)
        + le16_bytes(BRIDGE_CHANNELS) + le16_bytes(FRAME_SAMPLES as u16) + le64_bytes(sequence)
        + seq![0u8, 0u8, 0u8, 0u8]
}

pub fn bridge_header(sequence: u64) -> (r: Vec<u8>)
    ensures
        r@ == bridge_header_bytes(sequence),
        r@.len() == BRIDGE_HEADER_BYTES,
{
    let mut out: Vec<u8> = Vec::new();
    let magic = bridge_magic();
    let mut i: usize = 0;
    while i < 8
        invariant
            i <= 8,
            magic@ == bridge_magic_bytes(),
            out@ == magic@.take(i as int),
        decreases 8 - i,
    {
        out.push(magic[i]);
        i = i + 1;
    }
    assert(magic@.take(8) =~= magic@);
    let v = BRIDGE_VERSION;
    out.push(v as u8);
    out.push((v >> 8u16) as u8);
    out.push(0);
    out.push(0);
    let rate = BRIDGE_RATE;
    out.push(rate as u8);
    out.push((rate >> 8u32) as u8);
    out.push((rate >> 16u32) as u8);
    out.push((rate >> 24u32) as u8);
    let ch = BRIDGE_CHANNELS;
    out.push(ch as u8);
    out.push((ch >> 8u16) as u8);
    let n = FRAME_SAMPLES as u16;
    out.push(n as u8);
    out.push((n >> 8u16) as u8);
    let s = sequence;
    out.push(s as u8);
    out.push((s >> 8u64) as u8);
    out.push((s >> 16u64) as u8);
    out.push((s >> 24u64) as u8);
    out.push((s >> 32u64) as u8);
    out.push((s >> 40u64) as u8);
    out.push((s >> 48u64) as u8);
    out.push((s >> 56u64) as u8);
    out.push(0);
    out.push(0);
    out.push(0);
    out.push(0);
    assert(out@ =~= bridge_header_bytes(sequence));
    out
}

/// Where the bridge socket is: under `$XDG_RUNTIME_DIR`, else under a
/// per-user directory in `/tmp` (`user` when `$UID` is unset).
pub open spec fn bridge_socket(runtime_dir: Option<Seq<char>>, uid: Option<Seq<char>>) -> Seq<char> {
    match runtime_dir {
        Some(d) => join_path(d, "aetherstream/forgehx-mic.sock"@),
        None => "/tmp/aetherstream-"@ + match uid {
            Some(u) => u,
            None => "user"@,
        } + "/forgehx-mic.sock"@,
    }
}

pub fn bridge_socket_path(runtime_dir: Option<String>, uid: Option<String>) -> (r: String)
    ensures
        r@ == bridge_socket(opt_view(runtime_dir), opt_view(uid)),
{
    match runtime_dir {
        Some(d) => string_from(
            &join_path_chars(&str_chars(d.as_str()), &str_chars("aetherstream/forgehx-mic.sock")),
        ),
        None => {
            let u = match uid {
                Some(u) => str_chars(u.as_str()),
                None => str_chars("user"),
            };
            string_from(
                &concat(&concat(&str_chars("/tmp/aetherstream-"), &u), &str_chars("/forgehx-mic.sock")),
            )
        },
    }
}

/// Frames that cover a grace period: the milliseconds over 10, rounded up.
pub open spec fn grace_frames(grace_ms: u32) -> nat {
    ((grace_ms + 9) / 10) as nat
}

pub fn grace_to_frames(grace_ms: u32) -> (r: usize)
    ensures
        r == grace_frames(grace_ms),
        r * 10 >= grace_ms,
        r * 10 < grace_ms + 10,
{
    let q = grace_ms / FRAME_MS;
    let r = if grace_ms % FRAME_MS != 0 {
        q + 1
    } else {
        q
    };
    r as usize
}

// ------------------------------------------------------------ monitor

/// The monitor source of the default sink: `<sink>.monitor`, the sink name
/// trimmed; an empty name is refused.
pub fn monitor_source_name(sink: &str) -> (r: Result<String, String>)
    ensures
        r is Ok <==> trim(sink@).len() > 0,
        r matches Ok(s) ==> s@ == trim(sink@) + ".monitor"@,
        r matches Err(m) ==> m@ == "default audio sink name is empty"@,
{
    let t = trim_ws(&str_chars(sink));
    if t.len() == 0 {
        return Err(owned("default audio sink name is empty"));
    }
    Ok(string_from(&concat(&t, &str_chars(".monitor"))))
}

// ------------------------------------------------------------ PipeWire

/// The id of the node called `source_name` in `pw-cli ls Node` output.
pub fn parse_pw_cli_named_node_id(text: &str, source_name: &str) -> (r: Option<u32>)
    ensures
        r == scan_named_node(lines(text@), source_name@, None),
{
    pw_cli_named_node_id(text, source_name)
}

/// The id of the source called `source_name` in `wpctl status` output.
pub fn parse_named_source_node_id(status: &str, source_name: &str) -> (r: Option<u32>)
    ensures
        r == scan_named_source(lines(status@), source_name@, false),
{
    named_source_node_id(status, source_name)
}

/// The routing target of a source: its node name, else an object serial
/// that is a valid `u64`.
pub open spec fn source_target(text: Seq<char>) -> Option<Seq<char>> {
    match first_property(lines(text), "node.name"@) {
        Some(n) => Some(n),
        None => match first_property(lines(text), "object.serial"@) {
            Some(s) => if parse_bounded(s, 10, 0xffff_ffff_ffff_ffff) is Some {
                Some(s)
            } else {
                None
            },
            None => None,
        },
    }
}

pub fn parse_pipewire_target(text: &str) -> (r: Option<String>)
    ensures
        match source_target(text@) {
            Some(t) => r matches Some(s) && s@ == t,
            None => r is None,
        },
{
    if let Some(name) = pipewire_property(text, "node.name") {
        return Some(name);
    }
    match pipewire_property(text, "object.serial") {
        Some(s) => if parse_num(&str_chars(s.as_str()), 10, 0xffff_ffff_ffff_ffff).is_some() {
            Some(s)
        } else {
            None
        },
        None => None,
    }
}

/// The routing target of the capture source that `wpctl inspect <node_id>`
/// printed, or why there is none.
pub fn source_target_of(node_id: u32, inspect: &str) -> (r: Result<String, ForgeHxError>)
    ensures
        match source_target(inspect@) {
            Some(t) => r matches Ok(x) && x@ == t,
            None => r matches Err(ForgeHxError::AudioUnavailable(m)) && m@ == "PipeWire source "@
                + dec_str(node_id as nat)
                + " has neither node.name nor object.serial; processed-mic routing for this source is unavailable"@,
        },
{
    match parse_pipewire_target(inspect) {
        Some(t) => Ok(t),
        None => Err(
            ForgeHxError::AudioUnavailable(
                string_from(
                    &concat(
                        &concat(&str_chars("PipeWire source "), &fmt_dec(node_id as u64)),
                        &str_chars(
                            " has neither node.name nor object.serial; processed-mic routing for this source is unavailable",
                        ),
                    ),
                ),
            ),
        ),
    }
}

/// The stable node name in `wpctl inspect` output.
pub fn parse_node_name(text: &str) -> (r: Option<String>)
    ensures
        match first_property(lines(text@), "node.name"@) {
            Some(n) => r matches Some(s) && s@ == n,
            None => r is None,
        },
{
    pipewire_property(text, "node.name")
}

// ------------------------------------------------------------ device keys

/// A device's key: the FNV-1a hash of its id's UTF-8 bytes, in 16 hex digits.
pub open spec fn device_key_of(id: Seq<char>) -> Seq<char> {
    hex_str(fnv1a(vstd::utf8::encode_utf8(id)) as nat, 16)
}

pub fn device_key(device_id: &DeviceId) -> (r: String)
    ensures
        r@ == device_key_of(device_id.0@),
{
    let bytes = device_id.0.as_str().as_bytes();
    let mut hash: u64 = 0xcbf29ce484222325u64;
    let mut i: usize = 0;
    while i < bytes.len()
        invariant
            i <= bytes@.len(),
            hash == fnv1a(bytes@.take(i as int)),
        decreases bytes@.len() - i,
    {
        assert(bytes@.take(i as int + 1).drop_last() == bytes@.take(i as int));
        hash = (hash ^ (bytes[i] as u64)).wrapping_mul(0x100000001b3u64);
        i = i + 1;
    }
    assert(bytes@.take(bytes@.len() as int) == bytes@);
    string_from(&fmt_hex(hash as u128, 16))
}

/// The stream identity of a device's DSP runtime.
pub fn runtime_stream_identity(device_id: &DeviceId) -> (r: String)
    ensures
        r@ == "forgehx_bridge_"@ + device_key_of(device_id.0@),
{
    let key = device_key(device_id);
    string_from(&concat(&str_chars("forgehx_bridge_"), &str_chars(key.as_str())))
}

pub fn validate_profile_name(name: &str) -> (r: Result<(), ForgeHxError>)
    ensures
        r is Ok <==> plain_name(name@),
        r matches Err(e) ==> e matches ForgeHxError::InvalidProfile(m) && m@
            == "invalid microphone DSP profile name"@,
{
    if is_plain_name(name) {
        Ok(())
    } else {
        Err(ForgeHxError::InvalidProfile(owned("invalid microphone DSP profile name")))
    }
}

// The integer limits of a microphone DSP configuration; its other limits
// are ranges of floating-point values.

/// The microphone EQ has at most 12 bands.
pub fn mic_eq_band_count_ok(bands: usize) -> (r: bool)
    ensures
        r == (bands <= 12),
{
    bands <= 12
}

/// Noise suppression limits: a grace time of at most 2000 ms and a
/// retroactive grace time of at most 500 ms.
pub fn noise_suppression_windows_ok(grace_ms: u32, retroactive_grace_ms: u32) -> (r: bool)
    ensures
        r == (grace_ms <= 2000 && retroactive_grace_ms <= 500),
{
    grace_ms <= 2000 && retroactive_grace_ms <= 500
}

/// A speaker-lock voiceprint is either not enrolled (empty) or complete
/// (12 values).
pub fn voiceprint_length_ok(len: usize) -> (r: bool)
    ensures
        r == (len == 0 || len == 12),
{
    len == 0 || len == 12
}

/// Playback rejection keeps 100 to 2000 ms of history.
pub fn playback_history_ok(history_ms: u32) -> (r: bool)
    ensures
        r == (100 <= history_ms <= 2000),
{
    100 <= history_ms && history_ms <= 2000
}

/// At most 8 multiband EQ bands, 8 dynamic EQ bands and 4 compressor bands.
pub fn multiband_band_counts_ok(multiband_eq: usize, dynamic_eq: usize, multiband_compressor: usize) -> (r:
    bool)
    ensures
        r == (multiband_eq <= 8 && dynamic_eq <= 8 && multiband_compressor <= 4),
{
    multiband_eq <= 8 && dynamic_eq <= 8 && multiband_compressor <= 4
}

/// Where the microphone DSP keeps its files, under a configuration directory.
#[derive(Debug, Clone)]
pub struct MicDspPaths {
    pub config_home: String,
}

impl MicDspPaths {
    pub fn new(config_home: String) -> (r: Self)
        ensures
            r.config_home@ == config_home@,
    {
        MicDspPaths { config_home }
    }

    pub open spec fn profile_dir_spec(&self) -> Seq<char> {
        join_path(self.config_home@, "forgehx/microphone/profiles"@)
    }

    pub open spec fn active_dir_spec(&self) -> Seq<char> {
        join_path(self.config_home@, "forgehx/microphone/active"@)
    }

    pub open spec fn pipewire_dir_spec(&self) -> Seq<char> {
        join_path(self.config_home@, "pipewire/pipewire.conf.d"@)
    }

    fn under(&self, rel: &str) -> (r: Vec<char>)
        ensures
            r@ == join_path(self.config_home@, rel@),
    {
        join_path_chars(&str_chars(self.config_home.as_str()), &str_chars(rel))
    }

    pub fn profile_dir(&self) -> (r: String)
        ensures
            r@ == self.profile_dir_spec(),
    {
        string_from(&self.under("forgehx/microphone/profiles"))
    }

    pub fn active_dir(&self) -> (r: String)
        ensures
            r@ == self.active_dir_spec(),
    {
        string_from(&self.under("forgehx/microphone/active"))
    }

    pub fn pipewire_dir(&self) -> (r: String)
        ensures
            r@ == self.pipewire_dir_spec(),
    {
        string_from(&self.under("pipewire/pipewire.conf.d"))
    }

    /// `<profiles>/<name>.json`, for a plain name.
    pub fn profile_path(&self, name: &str) -> (r: Result<String, ForgeHxError>)
        ensures
            r is Ok <==> plain_name(name@),
            r matches Ok(p) ==> p@ == join_path(self.profile_dir_spec(), name@ + ".json"@),
            r is Err ==> r->Err_0 is InvalidProfile,
    {
        match validate_profile_name(name) {
            Ok(()) => {},
            Err(e) => return Err(e),
        }
        let file = concat(&str_chars(name), &str_chars(".json"));
        Ok(string_from(&join_path_chars(&self.under("forgehx/microphone/profiles"), &file)))
    }

    /// `<active>/<device key>.json`.
    pub fn active_path(&self, device_id: &DeviceId) -> (r: String)
        ensures
            r@ == join_path(self.active_dir_spec(), device_key_of(device_id.0@) + ".json"@),
    {
        let key = device_key(device_id);
        let file = concat(&str_chars(key.as_str()), &str_chars(".json"));
        string_from(&join_path_chars(&self.under("forgehx/microphone/active"), &file))
    }

    /// `<pipewire>/91-forgehx-mic-<device key>.conf`.
    pub fn dropin_path(&self, device_id: &DeviceId) -> (r: String)
        ensures
            r@ == join_path(
                self.pipewire_dir_spec(),
                "91-forgehx-mic-"@ + device_key_of(device_id.0@) + ".conf"@,
            ),
    {
        let key = device_key(device_id);
        let file = concat(
            &concat(&str_chars("91-forgehx-mic-"), &str_chars(key.as_str())),
            &str_chars(".conf"),
        );
        string_from(&join_path_chars(&self.under("pipewire/pipewire.conf.d"), &file))
    }
}


/// What is remembered of a microphone whose DSP ran: the profile it ran and
/// the physical PipeWire source it captured.
#[derive(Debug, Clone)]
pub struct ActiveMicState {
    pub profile_name: String,
    pub raw_source_node_name: String,
}

/// What keeping a microphone's DSP running does.
#[derive(Debug, Clone, Copy, PartialEq, Eq, Structural)]
pub struct AlwaysOnPlan {
    /// Remember the profile and source again.
    pub remember: bool,
    /// Start the runtime on the source; otherwise hand the running one the
    /// configuration.
    pub start_runtime: bool,
}

/// The source changed: nothing was remembered, or another source was.
pub open spec fn source_changed(remembered: Option<ActiveMicState>, source_name: Seq<char>) -> bool {
    match remembered {
        Some(a) => a.raw_source_node_name@ != source_name,
        None => true,
    }
}

/// Keeping the DSP on: the profile and source are remembered when nothing
/// was, or when either changed; the runtime is started when it is not
/// running or the source changed, else given the configuration.
pub fn always_on_plan(
    remembered: &Option<ActiveMicState>,
    profile_name: &str,
    source_name: &str,
    runtime_active: bool,
) -> (r: AlwaysOnPlan)
    ensures
        r.remember == (source_changed(*remembered, source_name@) || match remembered {
            Some(a) => a.profile_name@ != profile_name@,
            None => true,
        }),
        r.start_runtime == (!runtime_active || source_changed(*remembered, source_name@)),
{
    let (changed_source, changed_profile) = match remembered {
        Some(a) => (
            !chars_eq(&str_chars(a.raw_source_node_name.as_str()), &str_chars(source_name)),
            !chars_eq(&str_chars(a.profile_name.as_str()), &str_chars(profile_name)),
        ),
        None => (true, true),
    };
    AlwaysOnPlan {
        remember: changed_source || changed_profile,
        start_runtime: !runtime_active || changed_source,
    }
}

/// What a live update does to a microphone whose DSP ran before.
#[derive(Debug, Clone, Copy, PartialEq, Eq, Structural)]
pub enum LiveUpdatePlan {
    /// The DSP never ran on this microphone: only the profile is saved.
    SaveOnly,
    /// Remember the new profile name if `rename`, then hand the running
    /// runtime the configuration.
    Update { rename: bool },
    /// Remember the new profile name if `rename`, then start the runtime on
    /// the remembered source.
    Start { rename: bool },
}

pub fn live_update_plan(remembered: &Option<ActiveMicState>, profile_name: &str, runtime_active: bool) -> (r:
    LiveUpdatePlan)
    ensures
        match remembered {
            None => r == LiveUpdatePlan::SaveOnly,
            Some(a) => r == (if runtime_active {
                LiveUpdatePlan::Update { rename: a.profile_name@ != profile_name@ }
            } else {
                LiveUpdatePlan::Start { rename: a.profile_name@ != profile_name@ }
            }),
        },
{
    match remembered {
        None => LiveUpdatePlan::SaveOnly,
        Some(a) => {
            let rename = !chars_eq(&str_chars(a.profile_name.as_str()), &str_chars(profile_name));
            if runtime_active {
                LiveUpdatePlan::Update { rename }
            } else {
                LiveUpdatePlan::Start { rename }
            }
        },
    }
}

} // verus!
