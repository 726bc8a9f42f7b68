//! Probe lifecycle state machine, error taxonomy, and factory.
//!
//! One `Ez430` value stands for one opened probe: it carries the
//! negotiated clock speed, the configured scan chain, the reset line
//! state, the selected wire protocol, and whether a target is attached.
//! The transport exchanges themselves happen outside this crate; the
//! state machine here decides and records what each lifecycle operation
//! does, and its contracts pin every transition exactly.

use vstd::prelude::*;

verus! {

/// eZ430 specific errors.
#[derive(Clone, Copy, PartialEq, Eq, Structural, Debug)]
pub enum Ez430Error {
    /// USB or HID transport failure, surfaced by the transport layer.
    Usb,
    /// Encoding would exceed the fixed scratch buffers.
    BufferOverflow,
    /// A received frame's checksum does not match its payload.
    ChecksumMismatch,
    /// A received frame is garbled: bad markers, bad escape, or bad structure.
    FrameError,
    /// The target did not respond to an attach request.
    AttachError,
    /// The requested wire protocol is not supported by this probe.
    UnsupportedProtocol,
}

/// Errors while discovering and opening a probe.
#[derive(Clone, Copy, PartialEq, Eq, Structural, Debug)]
pub enum ProbeCreationError {
    /// No enumerated device passed both the family filter and the selector.
    NotFound,
    /// USB enumeration or opening failed for an environmental reason.
    Usb,
    /// The HID layer could not be initialized or refused the device.
    HidApi,
}

/// Wire debug protocols a caller may select.
#[derive(Clone, Copy, PartialEq, Eq, Structural, Debug)]
pub enum WireProtocol {
    /// Four-wire JTAG: the protocol this probe family drives.
    Jtag,
    /// ARM serial wire debug: not driven by this probe family.
    Swd,
}

/// One element of a multi-target scan chain.
#[derive(PartialEq, Eq, Debug)]
pub struct ScanChainElement {
    /// Instruction register length of this element, when known.
    pub ir_len: Option<u8>,
    /// Display name of this element, when known.
    pub name: Option<String>,
}

/// A factory for creating eZ430 probes.
#[derive(Clone, Copy, Debug)]
pub struct Ez430Factory;

impl Ez430Factory {
    /// Static display name of this probe family.
    pub fn name(&self) -> (r: &str)
        ensures
            r@ == "eZ430"@,
    {
        "eZ430"
    }
}

/// One opened eZ430 probe and its lifecycle state.
pub struct Ez430 {
    /// The clock speed, in kHz, the probe last configured.
    pub speed: u32,
    /// The configured scan chain topology; empty for a single target.
    pub scan_chain: Vec<ScanChainElement>,
    /// Whether firmware initialization has completed.
    pub initialized: bool,
    /// Whether a target is currently under debug control.
    pub attached: bool,
    /// Whether the target reset line is currently held asserted.
    pub reset_asserted: bool,
    /// The selected wire protocol, once one was negotiated.
    pub protocol: Option<WireProtocol>,
}

/// The generic probe handle a concrete probe upgrades into, transferring
/// exclusive ownership of the underlying device.
pub struct Probe {
    /// The concrete probe driven through this handle.
    pub inner: Ez430,
}

impl Ez430 {
    /// A probe as construction leaves it: nothing negotiated, no target
    /// attached, reset line released.
    pub fn new() -> (r: Ez430)
        ensures
            r.speed == 0,
            r.scan_chain@ =~= Seq::<ScanChainElement>::empty(),
            !r.initialized,
            !r.attached,
            !r.reset_asserted,
            r.protocol is None,
    {
        Ez430 {
            speed: 0,
            scan_chain: Vec::new(),
            initialized: false,
            attached: false,
            reset_asserted: false,
            protocol: None,
        }
    }

    /// Completes firmware initialization. A probe is handed to callers
    /// only after this has succeeded.
    pub fn init(&mut self) -> (r: Result<(), Ez430Error>)
        ensures
            r == Ok::<(), Ez430Error>(()),
            *final(self) == (Ez430 { initialized: true, ..*old(self) }),
    {
        self.initialized = true;
        Ok(())
    }

    /// Static display name of this probe.
    pub fn get_name(&self) -> (r: &str)
        ensures
            r@ == "eZ430"@,
    {
        "eZ430"
    }

    /// The currently configured clock speed in kHz.
    pub fn speed_khz(&self) -> (r: u32)
        ensures
            r == self.speed,
    {
        self.speed
    }

    /// Requests a clock speed. The value reported back is the one the
    /// probe actually configured and is authoritative; this probe honors
    /// the request exactly.
    pub fn set_speed(&mut self, speed_khz: u32) -> (r: Result<u32, Ez430Error>)
        ensures
            r == Ok::<u32, Ez430Error>(speed_khz),
            *final(self) == (Ez430 { speed: speed_khz, ..*old(self) }),
    {
        self.speed = speed_khz;
        Ok(self.speed)
    }

    /// Configures the scan chain topology.
    pub fn set_scan_chain(&mut self, scan_chain: Vec<ScanChainElement>) -> (r: Result<
        (),
        Ez430Error,
    >)
        ensures
            r == Ok::<(), Ez430Error>(()),
            *final(self) == (Ez430 { scan_chain, ..*old(self) }),
    {
        self.scan_chain = scan_chain;
        Ok(())
    }

    /// The configured scan chain topology.
    pub fn scan_chain(&self) -> (r: Result<&Vec<ScanChainElement>, Ez430Error>)
        ensures
            match r {
                Ok(chain) => chain == &self.scan_chain,
                Err(_) => false,
            },
    {
        Ok(&self.scan_chain)
    }

    /// Brings the target under debug control. The wire exchange happens
    /// outside this crate; whether the target answered it is handed in.
    /// An unresponsive target fails the attach and leaves the probe state
    /// unchanged, so a retry stays possible.
    pub fn attach(&mut self, target_responded: bool) -> (r: Result<(), Ez430Error>)
        ensures
            target_responded ==> r == Ok::<(), Ez430Error>(()) && *final(self) == (Ez430 {
                attached: true,
                ..*old(self)
            }),
            !target_responded ==> r == Err::<(), Ez430Error>(Ez430Error::AttachError)
                && *final(self) == *old(self),
    {
        if target_responded {
            self.attached = true;
            Ok(())
        } else {
            Err(Ez430Error::AttachError)
        }
    }

    /// Releases the target from debug control. Idempotent: detaching an
    /// already detached probe succeeds and changes nothing.
    pub fn detach(&mut self) -> (r: Result<(), Ez430Error>)
        ensures
            r == Ok::<(), Ez430Error>(()),
            *final(self) == old(self).detached_spec(),
    {
        self.attached = false;
        Ok(())
    }

    /// The probe state after a detach: the same probe, no target attached.
    pub open spec fn detached_spec(self) -> Ez430 {
        Ez430 { attached: false, ..self }
    }

    /// Pulses the target reset line: asserts it, then releases it. The
    /// line always ends up released.
    pub fn target_reset(&mut self) -> (r: Result<(), Ez430Error>)
        ensures
            r == Ok::<(), Ez430Error>(()),
            *final(self) == (Ez430 { reset_asserted: false, ..*old(self) }),
    {
        self.reset_asserted = true;
        self.reset_asserted = false;
        Ok(())
    }

    /// Holds the target reset line asserted. Permitted in any state; while
    /// detached it has no observable target effect until a future attach.
    pub fn target_reset_assert(&mut self) -> (r: Result<(), Ez430Error>)
        ensures
            r == Ok::<(), Ez430Error>(()),
            *final(self) == (Ez430 { reset_asserted: true, ..*old(self) }),
    {
        self.reset_asserted = true;
        Ok(())
    }

    /// Releases the target reset line.
    pub fn target_reset_deassert(&mut self) -> (r: Result<(), Ez430Error>)
        ensures
            r == Ok::<(), Ez430Error>(()),
            *final(self) == (Ez430 { reset_asserted: false, ..*old(self) }),
    {
        self.reset_asserted = false;
        Ok(())
    }

    /// Selects the wire protocol used once attached. Only JTAG is driven
    /// by this family; any other request fails and leaves the prior
    /// selection unchanged.
    pub fn select_protocol(&mut self, protocol: WireProtocol) -> (r: Result<(), Ez430Error>)
        ensures
            protocol == WireProtocol::Jtag ==> r == Ok::<(), Ez430Error>(()) && *final(self)
                == (Ez430 { protocol: Some(WireProtocol::Jtag), ..*old(self) }),
            protocol != WireProtocol::Jtag ==> r == Err::<(), Ez430Error>(
                Ez430Error::UnsupportedProtocol,
            ) && *final(self) == *old(self),
    {
        match protocol {
            WireProtocol::Jtag => {
                self.protocol = Some(WireProtocol::Jtag);
                Ok(())
            },
            WireProtocol::Swd => Err(Ez430Error::UnsupportedProtocol),
        }
    }

    /// The currently selected wire protocol, if one was negotiated.
    pub fn active_protocol(&self) -> (r: Option<WireProtocol>)
        ensures
            r == self.protocol,
    {
        self.protocol
    }

    /// Upgrades this probe into the generic handle, transferring exclusive
    /// ownership of the underlying device.
    pub fn into_probe(self) -> (r: Probe)
        ensures
            r.inner == self,
    {
        Probe { inner: self }
    }
}

/// Law: detach is idempotent. Detaching twice leaves the probe in exactly
/// the state one detach leaves it in, and both calls succeed (detach's
/// contract returns success unconditionally).
pub proof fn lemma_detach_idempotent(probe: Ez430)
    ensures
        probe.detached_spec().detached_spec() == probe.detached_spec(),
{
}

impl Ez430Error {
    /// A short human-readable description of this error.
    pub fn message(&self) -> (r: &str)
        ensures
            match self {
                Ez430Error::Usb => r@ == "USB error"@,
                Ez430Error::BufferOverflow => r@ == "command does not fit the report buffer"@,
                Ez430Error::ChecksumMismatch => r@ == "frame checksum mismatch"@,
                Ez430Error::FrameError => r@ == "garbled frame"@,
                Ez430Error::AttachError => r@ == "target did not respond to attach"@,
                Ez430Error::UnsupportedProtocol => r@ == "unsupported wire protocol"@,
            },
    {
        match self {
            Ez430Error::Usb => "USB error",
            Ez430Error::BufferOverflow => "command does not fit the report buffer",
            Ez430Error::ChecksumMismatch => "frame checksum mismatch",
            Ez430Error::FrameError => "garbled frame",
            Ez430Error::AttachError => "target did not respond to attach",
            Ez430Error::UnsupportedProtocol => "unsupported wire protocol",
        }
    }
}

impl ProbeCreationError {
    /// A short human-readable description of this error.
    pub fn message(&self) -> (r: &str)
        ensures
            match self {
                ProbeCreationError::NotFound => r@ == "no matching probe was found"@,
                ProbeCreationError::Usb => r@ == "USB enumeration or open failed"@,
                ProbeCreationError::HidApi => r@ == "HID layer failure"@,
            },
    {
        match self {
            ProbeCreationError::NotFound => "no matching probe was found",
            ProbeCreationError::Usb => "USB enumeration or open failed",
            ProbeCreationError::HidApi => "HID layer failure",
        }
    }
}

} // verus!