//! A bus device's part in the daisy-chain addressing protocol: the
//! configured/unconfigured state machine, identification-value encoding and
//! the daisy-chain output signal.

use vstd::prelude::*;

verus! {

/// A decoded command a device reacts to while unconfigured.
#[derive(Debug, Clone, Copy, PartialEq, Eq, Structural)]
pub enum Command {
    Id,
    Config,
}

/// The daisy-chain signalling a device sees: its input enable line, wired
/// from the previous device's output.
#[derive(Debug, Clone, Copy, PartialEq, Eq, Structural)]
pub struct BusSignalsIn {
    pub daisy_in: bool,
}

/// The daisy-chain signalling a device drives: its output enable line, wired
/// to the next device's input.
#[derive(Debug, Clone, Copy, PartialEq, Eq, Structural)]
pub struct BusSignalsOut {
    pub daisy_out: bool,
}

/// What a device is, for the identification value's device-type nibble.
#[derive(Debug, Clone, Copy, PartialEq, Eq, Structural)]
pub enum DeviceKind {
    Ram,
    Rom,
    /// Memory-mapped I/O, with its sub-type nibble (0 is the mailbox
    /// peripheral; the rest are unassigned).
    MappedIo { subtype: u8 },
}

/// The size/class nibble (nibble 0) of an identification value: for memory,
/// 14 less the base-two logarithm of the size in KB; for memory-mapped I/O,
/// 18 less the same logarithm.
pub open spec fn nibble0(kind: DeviceKind, size_kb_log2: u8) -> int {
    match kind {
        DeviceKind::Ram => 14 - size_kb_log2 as int,
        DeviceKind::Rom => 14 - size_kb_log2 as int,
        DeviceKind::MappedIo { .. } => 18 - size_kb_log2 as int,
    }
}

/// The device-type nibble (nibble 2) of an identification value.
pub open spec fn nibble2(kind: DeviceKind) -> int {
    match kind {
        DeviceKind::Ram => 0,
        DeviceKind::Rom => 1,
        DeviceKind::MappedIo { .. } => 0xf,
    }
}

/// The sub-type nibble (nibble 3): reserved (zero) for memory, the I/O
/// sub-type for memory-mapped I/O.
pub open spec fn nibble3(kind: DeviceKind) -> int {
    match kind {
        DeviceKind::Ram => 0,
        DeviceKind::Rom => 0,
        DeviceKind::MappedIo { subtype } => subtype as int,
    }
}

/// The five-nibble identification value, most significant nibble first:
/// size/class, reserved, device type, sub-type, and the last-in-chain flag in
/// the high bit of the final nibble.
pub open spec fn id_encoding(kind: DeviceKind, size_kb_log2: u8, last_in_chain: bool) -> int {
    nibble0(kind, size_kb_log2) * 0x10000 + nibble2(kind) * 0x100 + nibble3(kind) * 0x10 + (
    if last_in_chain {
        8int
    } else {
        0int
    })
}

/// The sizes each kind admits: the size/class nibble must fall in the range
/// the protocol reserves for it (9 to 15 for RAM, 7 to 15 for other memory,
/// 0 to 15 for memory-mapped I/O), and an I/O sub-type is one nibble.
pub open spec fn id_args_allowed(kind: DeviceKind, size_kb_log2: u8) -> bool {
    match kind {
        DeviceKind::Ram => size_kb_log2 <= 5,
        DeviceKind::Rom => size_kb_log2 <= 7,
        DeviceKind::MappedIo { subtype } => 3 <= size_kb_log2 <= 18 && subtype < 16,
    }
}

/// Build the five-nibble identification value a device of the given kind and
/// size sends in response to an identification command.
pub fn encode_id(kind: DeviceKind, size_kb_log2: u8, last_in_chain: bool) -> (id: u32)
    requires
        id_args_allowed(kind, size_kb_log2),
    ensures
        id as int == id_encoding(kind, size_kb_log2, last_in_chain),
        id < 0x100000,
{
    let n0: u32 = match kind {
        DeviceKind::Ram => 14 - size_kb_log2 as u32,
        DeviceKind::Rom => 14 - size_kb_log2 as u32,
        DeviceKind::MappedIo { .. } => 18 - size_kb_log2 as u32,
    };
    let n2: u32 = match kind {
        DeviceKind::Ram => 0,
        DeviceKind::Rom => 1,
        DeviceKind::MappedIo { .. } => 0xf,
    };
    let n3: u32 = match kind {
        DeviceKind::Ram => 0,
        DeviceKind::Rom => 0,
        DeviceKind::MappedIo { subtype } => subtype as u32,
    };
    let n4: u32 = if last_in_chain {
        8
    } else {
        0
    };
    n0 * 0x10000 + n2 * 0x100 + n3 * 0x10 + n4
}

/// One peripheral on the chain: its configured flag and the identification
/// value it answers with.
///
/// A device is created unconfigured; a configuration command received while
/// its input enable line is high makes it configured, and this model has no
/// path back (whether a real device can be reset short of a power cycle is an
/// open question of the protocol).
#[derive(Debug, Clone, PartialEq, Eq, Structural)]
pub struct BusDevice {
    configured: bool,
    /// Five nibbles (2.5 bytes), sent in response to an identification
    /// command while the input enable line is high.
    id: u32,
}

impl BusDevice {
    /// Whether the device has been configured.
    pub closed spec fn is_configured(self) -> bool {
        self.configured
    }

    /// The identification value the device answers with.
    pub closed spec fn id_spec(self) -> u32 {
        self.id
    }

    /// The state after one step of the protocol machine on `cmd` with the
    /// input enable line at `daisy_in`.
    pub closed spec fn step_state(self, cmd: Command, daisy_in: bool) -> BusDevice {
        if !self.is_configured() && daisy_in && cmd is Config {
            BusDevice { configured: true, id: self.id_spec() }
        } else {
            self
        }
    }

    /// The response one step of the protocol machine emits: the
    /// identification value when an unconfigured, enabled device is asked to
    /// identify itself; nothing otherwise.
    pub closed spec fn step_response(self, cmd: Command, daisy_in: bool) -> Option<u32> {
        if !self.is_configured() && daisy_in && cmd is Id {
            Some(self.id_spec())
        } else {
            None
        }
    }

    /// A fresh, unconfigured device with the given identification value.
    pub fn new(id: u32) -> (d: BusDevice)
        requires
            id < 0x100000,
        ensures
            !d.is_configured(),
            d.id_spec() == id,
    {
        BusDevice { configured: false, id }
    }

    /// Process one command together with the current daisy-chain input
    /// signal.
    ///
    /// Unconfigured and not enabled: the device stays silent. Unconfigured
    /// and enabled: an identification command is answered with the device's
    /// identification value, a configuration command makes the device
    /// configured. Configured: the two commands modelled here carry no
    /// further effect (the full command set of a configured device is an
    /// extension point of the protocol).
    pub fn command(&mut self, cmd: Command, sig: BusSignalsIn) -> (r: Option<u32>)
        ensures
            *final(self) == old(self).step_state(cmd, sig.daisy_in),
            r == old(self).step_response(cmd, sig.daisy_in),
            final(self).id_spec() == old(self).id_spec(),
            old(self).is_configured() ==> *final(self) == *old(self) && r is None,
            !old(self).is_configured() && !sig.daisy_in ==> *final(self) == *old(self) && r is None,
            !old(self).is_configured() && sig.daisy_in && cmd is Id ==> *final(self) == *old(self)
                && r == Some(old(self).id_spec()),
            !old(self).is_configured() && sig.daisy_in && cmd is Config ==> final(self).is_configured()
                && r is None,
    {
        if !self.configured && !sig.daisy_in {
            // No action while unconfigured with the enable line low.
            return None;
        }
        if !self.configured && sig.daisy_in {
            // While unconfigured and enabled, only identification and
            // configuration commands are acted upon.
            match cmd {
                Command::Id => {
                    return Some(self.id);
                },
                Command::Config => {
                    self.configured = true;
                    return None;
                },
            }
        }
        None
    }

    /// The signals the device drives: the daisy-chain output is asserted
    /// exactly while the device is configured, so that an unconfigured
    /// device blocks enablement from propagating down the chain.
    pub fn out_signals(&self) -> (r: BusSignalsOut)
        ensures
            r.daisy_out == self.is_configured(),
    {
        BusSignalsOut { daisy_out: self.configured }
    }
}

/// Device gating: an unconfigured device whose input enable line is low
/// neither changes state nor responds, to any command, and its own output
/// enable stays deasserted.
pub proof fn lemma_device_gating(d: BusDevice, cmd: Command)
    requires
        !d.is_configured(),
    ensures
        d.step_state(cmd, false) == d,
        d.step_response(cmd, false) is None,
        !d.step_state(cmd, false).is_configured(),
{
}

/// Device configuration: a configuration command processed while the input
/// enable line is high leaves the device configured, with its identification
/// value intact.
pub proof fn lemma_configure_enables(d: BusDevice)
    requires
        !d.is_configured(),
    ensures
        d.step_state(Command::Config, true).is_configured(),
        d.step_state(Command::Config, true).id_spec() == d.id_spec(),
{
}

/// A configured device stays configured — and so keeps its output enable
/// asserted — whatever commands and input signal values follow.
pub proof fn lemma_configured_is_terminal(d: BusDevice, cmd: Command, daisy_in: bool)
    requires
        d.is_configured(),
    ensures
        d.step_state(cmd, daisy_in) == d,
        d.step_response(cmd, daisy_in) is None,
{
}

} // verus!
