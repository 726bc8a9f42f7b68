//! Command framing and device abstraction for the eZ430 USB debug probe.
//!
//! The probe speaks a byte-stuffed, CRC-16/X.25-checksummed frame protocol
//! over 64-byte HID reports. This crate holds the frame codec, the USB
//! device matcher, and the probe lifecycle state machine; the raw HID and
//! USB transport lives outside it.

pub mod checksum;
pub mod codec;
pub mod probe;
pub mod tools;
