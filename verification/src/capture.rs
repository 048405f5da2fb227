//! Capture decisions: which source a device is read from, how large a read
//! is, which devices need a start-up sequence or a descriptor parser, and
//! the count of samples that the consumer could not take.
use vstd::prelude::*;
use std::sync::atomic::AtomicU64;
use std::sync::atomic::Ordering;
use crate::models::DeviceInfo;
use crate::models::ProtocolKind;

verus! {

/// Samples lost because the consumer's queue was full. Several threads
/// share it, so what it reads is whatever the count is at that moment.
pub struct CaptureStats {
    dropped_samples: AtomicU64,
}

impl CaptureStats {
    /// A count of zero.
    pub fn new() -> (r: CaptureStats) {
        CaptureStats { dropped_samples: AtomicU64::new(0) }
    }

    /// The number of samples dropped so far.
    pub fn dropped_samples(&self) -> u64 {
        self.dropped_samples.load(Ordering::Relaxed)
    }

    /// Counts one dropped sample.
    pub fn record_drop(&self) {
        self.dropped_samples.fetch_add(1, Ordering::Relaxed);
    }
}

/// Where a device's samples come from.
#[derive(Clone, Debug)]
pub enum CaptureSource {
    /// Polling an XInput slot.
    XInput { user_index: u32 },
    /// Reading input reports from a HID path.
    Hid { path: String },
}

/// Why a device cannot be captured.
#[derive(Clone, Copy, Debug, PartialEq, Eq, Structural)]
pub enum CaptureSetupError {
    /// An XInput device without a slot.
    MissingXInputIndex,
    /// A HID device without a path.
    Unusable,
}

/// Chooses the capture source: XInput devices by their slot, every other
/// device by its HID path.
pub fn capture_source(device: &DeviceInfo) -> (r: Result<CaptureSource, CaptureSetupError>)
    ensures
        device.protocol == ProtocolKind::XInput ==> match device.xinput_user_index {
            Some(i) => r matches Ok(CaptureSource::XInput { user_index }) && user_index == i,
            None => r == Err::<CaptureSource, CaptureSetupError>(CaptureSetupError::MissingXInputIndex),
        },
        device.protocol != ProtocolKind::XInput ==> match device.path {
            Some(p) => r matches Ok(CaptureSource::Hid { path }) && path@ == p@,
            None => r == Err::<CaptureSource, CaptureSetupError>(CaptureSetupError::Unusable),
        },
{
    match device.protocol {
        ProtocolKind::XInput => match device.xinput_user_index {
            Some(i) => Ok(CaptureSource::XInput { user_index: i }),
            None => Err(CaptureSetupError::MissingXInputIndex),
        },
        _ => match &device.path {
            Some(p) => Ok(CaptureSource::Hid { path: p.clone() }),
            None => Err(CaptureSetupError::Unusable),
        },
    }
}

/// Bytes read per input report: the device's report length (64 when
/// unknown), kept within 1..=1024.
pub open spec fn spec_report_buffer_len(input_report_bytes: Option<usize>) -> usize {
    let n = match input_report_bytes {
        Some(n) => n,
        None => 64,
    };
    if n < 1 { 1 } else if n > 1024 { 1024 } else { n }
}

/// Size of the buffer an input report is read into.
pub fn report_buffer_len(input_report_bytes: Option<usize>) -> (r: usize)
    ensures
        r == spec_report_buffer_len(input_report_bytes),
        1 <= r <= 1024,
{
    let n = match input_report_bytes {
        Some(n) => n,
        None => 64,
    };
    if n < 1 {
        1
    } else if n > 1024 {
        1024
    } else {
        n
    }
}

/// Whether reports of this protocol are decoded with the device's own
/// report descriptor.
pub fn needs_descriptor_parser(protocol: &ProtocolKind) -> (r: bool)
    ensures
        r == (*protocol == ProtocolKind::GenericHid || *protocol == ProtocolKind::Unknown),
{
    match protocol {
        ProtocolKind::GenericHid | ProtocolKind::Unknown => true,
        _ => false,
    }
}

/// The output reports that switch a Switch controller to full input
/// reports, in the order they are sent.
pub open spec fn switch_init_sequence() -> Seq<Seq<u8>> {
    seq![
        seq![0x80u8, 0x02],
        seq![0x80u8, 0x03],
        seq![0x80u8, 0x02],
        seq![0x80u8, 0x04],
        seq![0x01u8, 0, 0, 0, 0, 0, 0, 0, 0, 0, 0x03, 0x30],
    ]
}

/// The start-up output reports a device needs: the Switch sequence for a
/// Switch controller, none for the others.
pub fn init_packets(protocol: &ProtocolKind) -> (r: Vec<Vec<u8>>)
    ensures
        *protocol == ProtocolKind::Switch ==> r@.map_values(|p: Vec<u8>| p@) == switch_init_sequence(),
        *protocol != ProtocolKind::Switch ==> r@.len() == 0,
{
    let mut out: Vec<Vec<u8>> = Vec::new();
    match protocol {
        ProtocolKind::Switch => {
            out.push(vec![0x80u8, 0x02]);
            out.push(vec![0x80u8, 0x03]);
            out.push(vec![0x80u8, 0x02]);
            out.push(vec![0x80u8, 0x04]);
            out.push(vec![0x01u8, 0, 0, 0, 0, 0, 0, 0, 0, 0, 0x03, 0x30]);
            assert(out@.map_values(|p: Vec<u8>| p@) =~= switch_init_sequence());
        },
        _ => {},
    }
    out
}

/// Whether an XInput state is new: its packet number differs from the last
/// one seen.
pub fn is_new_xinput_packet(last_packet: Option<u32>, packet_number: u32) -> (r: bool)
    ensures
        r == (last_packet != Some(packet_number)),
{
    match last_packet {
        Some(p) => p != packet_number,
        None => true,
    }
}

} // verus!
