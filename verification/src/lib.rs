//! Device model of a virtual QuantAsylum QA402/QA403 audio analyzer.
//!
//! * **Register bus** ([`analyzer`]): bulk EP1. Host-to-device OUT frames are 5
//!   bytes `[reg:1][value:4 big-endian]`; a read sets bit 7 of the register byte
//!   and the 4-byte reply comes back on bulk IN. Covers the keepalive echo,
//!   input/output gain, sample rate, stream control, telemetry, firmware
//!   version, serial, capability word, calibration readout and the
//!   bootloader-entry magic.
//! * **Audio streaming** ([`stream`]): bulk EP2, transfers of interleaved int32
//!   little-endian stereo (right sample first on the wire). The fake ADC loops
//!   the fake DAC back behind a configurable latency.
//! * **Firmware update** ([`bootloader`], [`sim`]): writing `0xDEADBEEF` and
//!   `0xCAFEBABE` to register 0x0F "reboots" the device into an emulated NXP
//!   MCUBOOT/KBOOT HID bootloader that accepts `ReceiveSbFile` and then
//!   "reboots" back into the analyzer, optionally with a new firmware version.
//!
//! Personas are exposed through the [`backend::UsbBackend`] trait. [`proto`],
//! [`server`] and [`inqueue`] are the USB/IP device side, [`descriptors`] and [`runner`] the
//! Linux gadget side, [`config`] turns device specifications into options.
//!
//! Everything here is sequential and does no I/O. What the outside world
//! decides (the time, sensor readings, fresh seeds, the contents of files)
//! comes in as arguments; waits come out as actions. Values that are not whole
//! numbers are carried as the bit patterns of their IEEE 754 representation.

pub mod analyzer;
pub mod backend;
pub mod bootloader;
pub mod calpage;
pub mod config;
pub mod descriptors;
pub mod identity;
pub mod inqueue;
pub mod laws;
pub mod options;
pub mod persona;
pub mod proto;
pub mod registry;
pub mod rng;
pub mod runner;
pub mod server;
pub mod sim;
pub mod stream;
pub mod text;
pub mod wire;

pub use options::{GenChannel, GenSpec, Model, SimOptions};
pub use sim::Simulator;
