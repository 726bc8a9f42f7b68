//! Device matching and discovery logic, on plain descriptor values.
//!
//! USB enumeration itself happens outside this crate; it hands in one
//! [`UsbDeviceInfo`] per enumerated device, in enumeration order. That
//! order is platform-defined and not portable; selection is deterministic
//! only relative to it.

use vstd::prelude::*;
use crate::probe::ProbeCreationError;

verus! {

/// The USB vendor id of the eZ430 probe family.
pub const EZ430_VID: u16 = 0x0451;

/// The USB product id of the eZ430 probe family.
pub const EZ430_PID: u16 = 0xF432;

/// What this crate reads of an enumerated USB device descriptor.
#[derive(Debug)]
pub struct UsbDeviceInfo {
    /// USB vendor id.
    pub vendor_id: u16,
    /// USB product id.
    pub product_id: u16,
    /// Serial number string, when the device reports one.
    pub serial_number: Option<String>,
}

/// A caller-supplied filter naming one physical device among the
/// enumerated candidates.
#[derive(Debug)]
pub struct DebugProbeSelector {
    /// Required USB vendor id.
    pub vendor_id: u16,
    /// Required USB product id.
    pub product_id: u16,
    /// Required serial number; `None` accepts any device.
    pub serial_number: Option<String>,
}

/// A discovered probe, as listing reports it.
#[derive(Debug)]
pub struct DebugProbeInfo {
    /// Display name of the probe family.
    pub identifier: String,
    /// USB vendor id of the discovered device.
    pub vendor_id: u16,
    /// USB product id of the discovered device.
    pub product_id: u16,
    /// Serial number; this probe family does not report one.
    pub serial_number: Option<String>,
}

/// Whether a descriptor belongs to the eZ430 probe family.
pub open spec fn is_ez430_device_spec(device: UsbDeviceInfo) -> bool {
    device.vendor_id == EZ430_VID && device.product_id == EZ430_PID
}

/// True exactly for the fixed eZ430 vendor/product id pair, and false for
/// every other pair.
pub fn is_ez430_device(device: &UsbDeviceInfo) -> (r: bool)
    ensures
        r == is_ez430_device_spec(*device),
{
    device.vendor_id == EZ430_VID && device.product_id == EZ430_PID
}

impl DebugProbeSelector {
    /// Whether a descriptor satisfies this selector: ids equal, and the
    /// serial equal whenever the selector demands one.
    pub open spec fn matches_spec(self, device: UsbDeviceInfo) -> bool {
        &&& self.vendor_id == device.vendor_id
        &&& self.product_id == device.product_id
        &&& match self.serial_number {
            Some(wanted) => match device.serial_number {
                Some(got) => wanted@ == got@,
                None => false,
            },
            None => true,
        }
    }

    /// Executable mirror of [`Self::matches_spec`].
    pub fn matches(&self, device: &UsbDeviceInfo) -> (r: bool)
        ensures
            r == self.matches_spec(*device),
    {
        self.vendor_id == device.vendor_id && self.product_id == device.product_id && (
        match (&self.serial_number, &device.serial_number) {
            (Some(wanted), Some(got)) => wanted.eq(got),
            (Some(_), None) => false,
            (None, _) => true,
        })
    }
}

/// Whether discovery settles on a device: it is of the eZ430 family and
/// satisfies the caller's selector.
pub open spec fn device_selected(device: UsbDeviceInfo, selector: DebugProbeSelector) -> bool {
    is_ez430_device_spec(device) && selector.matches_spec(device)
}

/// The discovery half of opening a probe: among the enumerated devices,
/// in enumeration order, the first of the eZ430 family that satisfies the
/// selector. Fails with `NotFound` exactly when no device does.
pub fn select_device(devices: &Vec<UsbDeviceInfo>, selector: &DebugProbeSelector) -> (r: Result<
    usize,
    ProbeCreationError,
>)
    ensures
        match r {
            Ok(i) => {
                &&& i < devices@.len()
                &&& device_selected(devices@[i as int], *selector)
                &&& forall|j: int| 0 <= j < i ==> !device_selected(devices@[j], *selector)
            },
            Err(e) => {
                &&& e == ProbeCreationError::NotFound
                &&& forall|j: int|
                    0 <= j < devices@.len() ==> !device_selected(devices@[j], *selector)
            },
        },
{
    let mut i: usize = 0;
    while i < devices.len()
        invariant
            i <= devices@.len(),
            forall|j: int| 0 <= j < i ==> !device_selected(devices@[j], *selector),
        decreases devices@.len() - i,
    {
        let d = &devices[i];
        if is_ez430_device(d) && selector.matches(d) {
            return Ok(i);
        }
        i += 1;
    }
    Err(ProbeCreationError::NotFound)
}

/// The eZ430-family descriptors among the enumerated ones, in order.
pub open spec fn ez430_filtered(devices: Seq<UsbDeviceInfo>) -> Seq<UsbDeviceInfo>
    decreases devices.len(),
{
    if devices.len() == 0 {
        Seq::empty()
    } else {
        let rest = ez430_filtered(devices.skip(1));
        if is_ez430_device_spec(devices[0]) {
            seq![devices[0]] + rest
        } else {
            rest
        }
    }
}

/// Filtering distributes over concatenation.
pub proof fn lemma_ez430_filtered_add(a: Seq<UsbDeviceInfo>, b: Seq<UsbDeviceInfo>)
    ensures
        ez430_filtered(a + b) == ez430_filtered(a) + ez430_filtered(b),
    decreases a.len(),
{
    if a.len() == 0 {
        assert(a + b =~= b);
        assert(ez430_filtered(a) + ez430_filtered(b) =~= ez430_filtered(b));
    } else {
        assert((a + b).skip(1) =~= a.skip(1) + b);
        lemma_ez430_filtered_add(a.skip(1), b);
        assert(ez430_filtered(a + b) =~= ez430_filtered(a) + ez430_filtered(b));
    }
}

/// One more enumerated device extends the filtered list by that device
/// exactly when it is of the family.
pub proof fn lemma_ez430_filtered_take_succ(devices: Seq<UsbDeviceInfo>, i: int)
    requires
        0 <= i < devices.len(),
    ensures
        ez430_filtered(devices.take(i + 1)) == if is_ez430_device_spec(devices[i]) {
            ez430_filtered(devices.take(i)) + seq![devices[i]]
        } else {
            ez430_filtered(devices.take(i))
        },
{
    assert(devices.take(i + 1) =~= devices.take(i) + seq![devices[i]]);
    lemma_ez430_filtered_add(devices.take(i), seq![devices[i]]);
    let one = seq![devices[i]];
    assert(one.skip(1) =~= Seq::<UsbDeviceInfo>::empty());
    assert(ez430_filtered(Seq::<UsbDeviceInfo>::empty()) == Seq::<UsbDeviceInfo>::empty());
    if is_ez430_device_spec(devices[i]) {
        assert(ez430_filtered(one) == seq![one[0]] + ez430_filtered(one.skip(1)));
        assert(ez430_filtered(one) =~= seq![devices[i]]);
    } else {
        assert(ez430_filtered(one) == ez430_filtered(one.skip(1)));
        assert(ez430_filtered(one) =~= Seq::<UsbDeviceInfo>::empty());
        assert(ez430_filtered(devices.take(i)) + ez430_filtered(one) =~= ez430_filtered(
            devices.take(i),
        ));
    }
}

/// What listing reports of one discovered family device.
pub open spec fn is_ez430_probe_info(info: DebugProbeInfo, device: UsbDeviceInfo) -> bool {
    &&& info.identifier@ == "eZ430"@
    &&& info.vendor_id == device.vendor_id
    &&& info.product_id == device.product_id
    &&& info.serial_number is None
}

/// The compute half of listing probes: maps every eZ430-family descriptor
/// among the enumerated devices, in enumeration order, to a probe info
/// record; every other descriptor contributes nothing. Enumeration
/// failures are handled by the caller, which reports an empty list rather
/// than aborting a wider discovery sweep.
pub fn list_ez430_devices(devices: &Vec<UsbDeviceInfo>) -> (r: Vec<DebugProbeInfo>)
    ensures
        r@.len() == ez430_filtered(devices@).len(),
        forall|k: int|
            0 <= k < r@.len() ==> is_ez430_probe_info(#[trigger] r@[k], ez430_filtered(devices@)[k]),
{
    let mut out: Vec<DebugProbeInfo> = Vec::new();
    let mut i: usize = 0;
    assert(devices@.take(0) =~= Seq::<UsbDeviceInfo>::empty());
    while i < devices.len()
        invariant
            i <= devices@.len(),
            out@.len() == ez430_filtered(devices@.take(i as int)).len(),
            forall|k: int|
                0 <= k < out@.len() ==> is_ez430_probe_info(
                    #[trigger] out@[k],
                    ez430_filtered(devices@.take(i as int))[k],
                ),
        decreases devices@.len() - i,
    {
        let d = &devices[i];
        if is_ez430_device(d) {
            let info = DebugProbeInfo {
                identifier: "eZ430".to_owned(),
                vendor_id: d.vendor_id,
                product_id: d.product_id,
                serial_number: None,
            };
            out.push(info);
        }
        proof {
            lemma_ez430_filtered_take_succ(devices@, i as int);
        }
        i += 1;
    }
    assert(devices@.take(devices@.len() as int) =~= devices@);
    out
}

} // verus!
