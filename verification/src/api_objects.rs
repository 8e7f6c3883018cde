//! The data model shared by the print engine and its operator surfaces:
//! poses, file descriptions, print metadata and status values.  Text
//! fields are ASCII byte strings; times are integer milliseconds and
//! lengths integer microns, the authoritative units of the controller.

use vstd::prelude::*;

verus! {

/// A platform pose: the authoritative Z position in microns and whether
/// the UV source is currently curing.
#[derive(Clone, Copy, Debug, PartialEq, Eq, Structural)]
pub struct PhysicalState {
    pub z_microns: u32,
    pub curing: bool,
}

impl PhysicalState {
    /// The pose a client reports before any hardware has been booted.
    pub fn initial() -> (r: PhysicalState)
        ensures
            r.z_microns == 0,
            !r.curing,
    {
        PhysicalState { z_microns: 0, curing: false }
    }
}

/// A named blob, as thumbnails and uploads travel.
#[derive(Clone, Debug)]
pub struct FileData {
    pub name: Vec<u8>,
    pub data: Vec<u8>,
}

/// How a stored file is treated, decided by its extension.
#[derive(Clone, Copy, Debug, PartialEq, Eq, Structural)]
pub enum FileType {
    Directory,
    UnknownFile,
    SL1,
}

/// A configured directory print files are uploaded to.
#[derive(Clone, Debug)]
pub struct PrintUploadDirectory {
    pub label: Vec<u8>,
    pub path: Vec<u8>,
}

/// A stored file as the operator surfaces list it.  The embedding binary
/// supplies what only the file system knows (size, times, whether the
/// path is a directory); the classification logic lives here.
#[derive(Clone, Debug)]
pub struct FileMetadata {
    pub path: Vec<u8>,
    pub name: Vec<u8>,
    pub last_modified: Option<u64>,
    pub file_size: u64,
    pub file_type: FileType,
    pub upload_directory: PrintUploadDirectory,
}

/// Operator-maintained marks kept beside an archive.
#[derive(Clone, Copy, Debug, PartialEq, Eq, Structural)]
pub struct PrintUserMetadata {
    pub print_count: u32,
    pub favorite: bool,
    pub rating: Option<u8>,
}

/// Per-archive facts of a sliced print: material in millilitre
/// thousandths, print time in milliseconds, layer height in microns.
#[derive(Clone, Debug)]
pub struct PrintMetadata {
    pub file_data: FileMetadata,
    pub used_material_milli: u64,
    pub print_time_ms: u64,
    pub layer_height_microns: u32,
    pub layer_count: usize,
    pub user_metadata: PrintUserMetadata,
}

/// Which archive thumbnail is requested.
#[derive(Clone, Copy, Debug, PartialEq, Eq, Structural)]
pub enum ThumbnailSize {
    Large,
    Small,
}

/// The shape of the printer state, as status snapshots carry it.
#[derive(Clone, Copy, Debug, PartialEq, Eq, Structural)]
pub enum PrinterStatus {
    Printing,
    Idle,
    Shutdown,
}

/// A published release of the controller software, as the update
/// surface lists them.
#[derive(Clone, Debug)]
pub struct ReleaseVersion {
    pub name: Vec<u8>,
    pub version: Vec<u8>,
    pub date: Vec<u8>,
    pub body: Option<Vec<u8>>,
}

} // verus!
