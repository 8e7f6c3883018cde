//! Core logic of an MSLA resin printer controller: the printer state
//! machine, the motion-command templating, the mask re-encoder, and the
//! sliced-archive reader, each with a verified contract.  The embedding
//! binary owns the devices (serial port, frame buffer, file system) and
//! drives these components with plain values.

pub mod api_objects;
pub mod configuration;
pub mod display;
pub mod error;
pub mod gcode;
pub mod printer;
pub mod printfile;
pub mod sl1;
pub mod text;
pub mod uploads;
pub mod vars;
