# forgehx

The decision logic of ForgeHX, a Linux control stack for HyperX peripherals,
written in Verus. Every function in `src/` carries a contract that Verus
proves, except three small wrappers around calls Verus cannot read, whose
contracts are assumed: `sha256_digest` in `src/firmware.rs` (the `sha2` crate's
SHA-256), `lossy_string` in `src/openrgb.rs` (`String::from_utf8_lossy`) and
`push_char` in `src/text.rs` (`String::push`). Their doc comments say what is
assumed of each.

## Layout

- `src/model.rs` — devices, capabilities, owners, support levels, profiles and
  their checks.
- `src/device.rs` — what HID, USB and power-supply enumeration reports, how
  interfaces are classified and grouped into devices, and how sysfs values read.
- `src/backends.rs`, `src/daemon.rs` — matching external backend devices,
  choosing one owner per capability, support levels, request routing, the
  protocol gate and projections for older clients, applying profiles.
- `src/openrgb.rs`, `src/ratbag.rs`, `src/services.rs` — the OpenRGB SDK wire
  format, `ratbagctl` commands and output, service activation plans.
- `src/audio.rs`, `src/pipewire.rs`, `src/dsp.rs`, `src/output_dsp.rs`,
  `src/aetherstream.rs` — PipeWire/WirePlumber output parsing, EQ drop-ins,
  microphone-DSP paths and bridge packets, output-DSP protocol frames.
- `src/firmware.rs` — the microphone firmware registry, staging and the
  transaction state machine.
- `src/text.rs`, `src/order.rs` — text handling and stable sorting with their
  specifications.
- `app/` — the `forgehx` command-line client: argument parsing, the daemon
  socket, JSON, and the `f32` range checks that the verified library cannot
  hold.
- `tests/` — tests run against the compiled library.

The `pub proof fn law_*` functions state properties that hold across
operations, such as one owner per capability, devices following group keys, and
no native writes without a verified driver.
