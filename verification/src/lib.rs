//! A reader for the C3D motion-capture container: a 512-byte header block,
//! a dictionary of named parameter groups, and a stream of frames that
//! interleave 3-D point words with analog samples.
//!
//! Everything here works on bytes that are already in memory. Real numbers
//! are carried as IEEE 754 single-precision bit patterns (`u32`); the
//! arithmetic on them is left to the caller.

pub mod adapter;
pub mod entry;
pub mod error;
pub mod frame;
pub mod header;
pub mod ieee;
pub mod labels;
pub mod order;
pub mod parameter;
pub mod reader;
pub mod section;
pub mod text;
pub mod value;
pub mod wire;

pub use adapter::C3dAdapter;
pub use error::ParserError;
pub use frame::{AnalogData, AnalogSample, Calibration, PointData, Quantity};
pub use header::HeaderBlock;
pub use parameter::{
    GroupFormat, ParamData, ParameterBlock, ParameterBlockHeader, ParameterFormat,
};
pub use reader::C3dReader;
pub use value::{ParamClone, ParamValue};
