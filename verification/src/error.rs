//! The closed set of failures a decode can end in.

use vstd::prelude::*;

verus! {

/// Why a read was refused. A variant carries nothing but its tag, and the
/// first one raised ends the parse.
#[derive(Debug, Clone, Copy, PartialEq, Eq, Structural)]
pub enum Error {
    /// Fewer bytes remain than the read needs.
    BufferEndReached,
    /// A one-byte flag held something other than 0 or 1.
    InvalidVaruint1,
    /// The continuation bit was set on an unsigned 7-bit field.
    InvalidVaruint7,
    /// The continuation bit was set on a signed 7-bit field.
    InvalidVarint7,
    /// Five bytes were read and none ended the unsigned 32-bit field.
    InvalidVaruint32,
    /// Five bytes were read and none ended the signed 32-bit field.
    InvalidVarint32,
    /// Nine bytes were read and none ended the signed 64-bit field.
    InvalidVarint64,
    /// The first header field is not the format's magic number.
    InvalidMagicNumber,
    /// The second header field is not the supported version.
    InvalidVersionNumber,
}

} // verus!
