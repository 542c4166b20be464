//! Decoding of DTED (Digital Terrain Elevation Data) files and elevation
//! queries on the decoded grid.
//!
//! A DTED file is a fixed-layout raster of elevation samples: an 80-byte
//! User Header Label, two opaque metadata blocks, then one record per
//! longitude line, each holding the samples of that line from south to north.
//!
//! Angles are held in fixed point (thousandths of an arc-second), so that
//! decoding, bounds and grid positions are exact; an interpolated elevation
//! is returned as an exact fraction of metres.
use vstd::prelude::*;

pub mod dted;
pub mod parsers;
pub mod primitives;

pub use dted::{DTEDData, DTEDMetadata};

verus! {

/// Failure to obtain or decode a DTED file.
#[derive(Debug)]
pub enum Error {
    /// The underlying read failed.
    Io(std::io::Error),
    /// The input ended before a fixed-layout field was complete.
    Incomplete,
    /// A sentinel did not match its literal bytes.
    Tag,
    /// A decimal field held a byte that is not an ASCII digit, or a value too
    /// large for its type.
    Digit,
    /// The fields of an angle are out of range.
    Angle(crate::primitives::AngleError),
    /// Bytes were left over after the last record of a file.
    TrailingBytes,
}

impl From<std::io::Error> for Error {
    fn from(err: std::io::Error) -> Error {
        Error::Io(err)
    }
}

impl vstd::std_specs::convert::FromSpecImpl<std::io::Error> for Error {
    open spec fn obeys_from_spec() -> bool {
        true
    }

    open spec fn from_spec(err: std::io::Error) -> Error {
        Error::Io(err)
    }
}

/// std's `io::Error`, carried unopened in [`Error::Io`]; nothing is assumed
/// of its contents.
#[verifier::external_type_specification]
#[verifier::external_body]
pub struct ExIoError(std::io::Error);

} // verus!
