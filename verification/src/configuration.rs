//! Configuration values of the controller, in the engine's own units:
//! microns for lengths, microns per second for speeds, milliseconds for
//! waits.  The embedding binary parses the operator's configuration file
//! and converts into these.

use vstd::prelude::*;

use crate::api_objects::PrintUploadDirectory;
use crate::display::DisplayConfig;
use crate::gcode::GcodeConfig;

verus! {

/// Motion defaults used where a sliced archive carries no override.
#[derive(Clone, Debug)]
pub struct PrinterConfig {
    /// Device path of the serial port; only the embedding binary opens it.
    pub serial: Vec<u8>,
    pub baudrate: u32,
    pub max_z_microns: u32,
    pub default_lift_microns: u32,
    pub default_up_speed: u32,
    pub default_down_speed: u32,
    pub default_wait_before_exposure_ms: u64,
    pub default_wait_after_exposure_ms: u64,
    pub pause_lift_microns: u32,
}

/// Where the operator surface stores and serves files.
#[derive(Clone, Debug)]
pub struct ApiConfig {
    pub upload_dirs: Vec<PrintUploadDirectory>,
    pub usb_glob: Vec<u8>,
    pub port: u16,
}

/// The whole configuration, loaded once and then immutable.
#[derive(Clone, Debug)]
pub struct Configuration {
    pub printer: PrinterConfig,
    pub gcode: GcodeConfig,
    pub api: ApiConfig,
    pub display: DisplayConfig,
}

} // verus!
