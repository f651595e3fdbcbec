//! The AetherStream output-DSP client's side of the protocol: length
//! framing of its messages, the envelope version, and what each reply means
//! for a status or apply request.
use crate::firmware::{join_path, join_path_chars};
use crate::text::{concat, dec_str, fmt_dec, opt_view, owned, str_chars, string_from};
use vstd::prelude::*;

verus! {

/// The envelope version this client speaks.
pub const IPC_PROTOCOL_VERSION: u16 = 1;

/// The largest frame accepted either way (8 MiB).
pub const MAX_FRAME: usize = 8388608;

/// The sink the runtime processes: the current default one.
pub const DEFAULT_OUTPUT_DSP_TARGET: &'static str = "@DEFAULT_AUDIO_SINK@";

/// A reply of the output-DSP runtime.
#[derive(Debug, Clone)]
pub enum OutputDspRuntimeResponse {
    Applied { device_id: String, generation: u64 },
    Status { live: bool, active_device_id: Option<String>, generation: u64 },
    Rejected { reason: String },
}

/// What the runtime reports of itself.
#[derive(Debug, Clone)]
pub struct OutputDspRuntimeStatus {
    pub live: bool,
    pub active_device_id: Option<String>,
    pub generation: u64,
}

/// The client of the runtime's control socket.
#[derive(Debug, Default, Clone, Copy)]
pub struct OutputDspClient;

impl OutputDspClient {
    /// What a reply to a status request means: the status, the runtime's
    /// reason for refusing, or an error for an apply reply.
    pub fn status(&self, reply: OutputDspRuntimeResponse) -> (r: Result<OutputDspRuntimeStatus, String>)
        ensures
            match reply {
                OutputDspRuntimeResponse::Status { live, active_device_id, generation } => r matches Ok(s)
                    && s.live == live && opt_view(s.active_device_id) == opt_view(active_device_id)
                    && s.generation == generation,
                OutputDspRuntimeResponse::Rejected { reason } => r matches Err(m) && m@ == reason@,
                OutputDspRuntimeResponse::Applied { .. } => r matches Err(m) && m@
                    == "AetherStream returned apply reply to status request"@,
            },
    {
        match reply {
            OutputDspRuntimeResponse::Status { live, active_device_id, generation } => Ok(
                OutputDspRuntimeStatus { live, active_device_id, generation },
            ),
            OutputDspRuntimeResponse::Rejected { reason } => Err(reason),
            OutputDspRuntimeResponse::Applied { .. } => Err(
                owned("AetherStream returned apply reply to status request"),
            ),
        }
    }

    /// What a reply to an apply request means: the new generation, the
    /// runtime's reason for refusing, or an error for a status reply.
    pub fn apply_outcome(&self, reply: OutputDspRuntimeResponse) -> (r: Result<u64, String>)
        ensures
            match reply {
                OutputDspRuntimeResponse::Applied { generation, .. } => r == Ok::<u64, String>(generation),
                OutputDspRuntimeResponse::Rejected { reason } => r matches Err(m) && m@ == reason@,
                OutputDspRuntimeResponse::Status { .. } => r matches Err(m) && m@
                    == "AetherStream returned status reply to apply request"@,
            },
    {
        match reply {
            OutputDspRuntimeResponse::Applied { generation, .. } => Ok(generation),
            OutputDspRuntimeResponse::Rejected { reason } => Err(reason),
            OutputDspRuntimeResponse::Status { .. } => Err(
                owned("AetherStream returned status reply to apply request"),
            ),
        }
    }

    /// Where the control socket is: under `$XDG_RUNTIME_DIR`, else under a
    /// per-user directory in `/tmp` (`user` when `$UID` is unset).
    pub fn socket_path(runtime_dir: Option<String>, uid: Option<String>) -> (r: String)
        ensures
            r@ == socket_path_of(opt_view(runtime_dir), opt_view(uid)),
    {
        match runtime_dir {
            Some(d) => string_from(
                &join_path_chars(&str_chars(d.as_str()), &str_chars("aetherstream/output-dsp.sock")),
            ),
            None => {
                let u = match uid {
                    Some(u) => str_chars(u.as_str()),
                    None => str_chars("user"),
                };
                string_from(
                    &concat(&concat(&str_chars("/tmp/aetherstream-"), &u), &str_chars("/output-dsp.sock")),
                )
            },
        }
    }
}

pub open spec fn socket_path_of(runtime_dir: Option<Seq<char>>, uid: Option<Seq<char>>) -> Seq<char> {
    match runtime_dir {
        Some(d) => join_path(d, "aetherstream/output-dsp.sock"@),
        None => "/tmp/aetherstream-"@ + match uid {
            Some(u) => u,
            None => "user"@,
        } + "/output-dsp.sock"@,
    }
}

/// A reply must carry this client's envelope version.
pub fn check_envelope_version(version: u16) -> (r: Result<(), String>)
    ensures
        r is Ok <==> version == IPC_PROTOCOL_VERSION,
        r matches Err(m) ==> m@ == "AetherStream output-DSP protocol mismatch: "@ + dec_str(
            version as nat,
        ),
{
    if version != IPC_PROTOCOL_VERSION {
        return Err(
            string_from(
                &concat(
                    &str_chars("AetherStream output-DSP protocol mismatch: "),
                    &fmt_dec(version as u64),
                ),
            ),
        );
    }
    Ok(())
}

/// The big-endian `u32` length in front of a frame.
pub open spec fn be32(b: Seq<u8>) -> int {
    b[0] * 16777216 + b[1] * 65536 + b[2] * 256 + b[3]
}

/// The length prefix for a frame of `len` bytes, refused over `MAX_FRAME`.
pub fn frame_prefix(len: usize) -> (r: Result<[u8; 4], String>)
    ensures
        r is Ok <==> len <= MAX_FRAME,
        r matches Ok(b) ==> be32(b@) == len,
        r matches Err(m) ==> m@ == "AetherStream output-DSP frame too large"@,
{
    if len > MAX_FRAME {
        return Err(owned("AetherStream output-DSP frame too large"));
    }
    let n = len as u32;
    let b = [(n / 16777216) as u8, ((n / 65536) % 256) as u8, ((n / 256) % 256) as u8, (n % 256) as u8];
    assert(b@[0] == n / 16777216);
    assert(b@[1] == (n / 65536) % 256);
    assert(b@[2] == (n / 256) % 256);
    assert(b@[3] == n % 256);
    assert((n / 16777216) * 16777216 + ((n / 65536) % 256) * 65536 + ((n / 256) % 256) * 256 + n % 256 == n) by (nonlinear_arith)
        requires
            n < 16777216 * 256,
    ;
    Ok(b)
}

/// The length a received prefix announces; zero and lengths over
/// `MAX_FRAME` are refused.
pub fn frame_length(prefix: [u8; 4]) -> (r: Result<usize, String>)
    ensures
        r is Ok <==> 0 < be32(prefix@) <= MAX_FRAME,
        r matches Ok(n) ==> n == be32(prefix@),
        r matches Err(m) ==> m@ == "invalid AetherStream output-DSP frame length"@,
{
    let len: u64 = prefix[0] as u64 * 16777216 + prefix[1] as u64 * 65536 + prefix[2] as u64 * 256
        + prefix[3] as u64;
    if len == 0 || len > MAX_FRAME as u64 {
        return Err(owned("invalid AetherStream output-DSP frame length"));
    }
    Ok(len as usize)
}

} // verus!
