//! Verified core of a controller input-latency and polling-rate tester:
//! HID report descriptor parsing, report decoding, device classification,
//! trigger-frame decoding and the bookkeeping rules of the measurements.
pub mod models;
pub mod number_text;
pub mod protocol;
pub mod text;
pub mod xinput;
pub mod capture;
pub mod clock;
pub mod collation;
pub mod device_probe;
pub mod measurement;
pub mod polling;
pub mod hid_bits;
pub mod headless;
pub mod hid_descriptor;
pub mod history;
pub mod ranking;
pub mod serial_trigger;
pub mod stable;
