//! Why a chunk could not be decoded.

use vstd::prelude::*;

verus! {

/// A field that a chunk document must hold.
#[derive(Clone, Copy, Debug, PartialEq, Eq, Structural)]
pub enum Field {
    /// `xPos` of the chunk: a 32-bit integer.
    XPos,
    /// `zPos` of the chunk: a 32-bit integer.
    ZPos,
    /// `sections` of the chunk: a list of compound tags.
    Sections,
    /// `Y` of the chunk's first section: a byte.
    SectionY,
    /// `Name` of a palette entry: a string.
    PaletteName,
}

/// Why a chunk could not be decoded. An absent chunk is no error.
#[derive(Clone, Copy, Debug, PartialEq, Eq, Structural)]
pub enum DecodeError {
    /// The header entry or the payload lies outside the container.
    MalformedContainer,
    /// The payload is compressed with a scheme other than zlib.
    UnsupportedCompression,
    /// The payload does not inflate, or what it inflates to is no tag tree.
    CorruptPayload,
    /// A required field is missing or holds a tag of another type.
    MissingField(Field),
    /// The chunk has more sections than the decoder has room for.
    TooManySections,
    /// The packed data of a section ends before its last block.
    TruncatedData,
    /// A packed index names no entry of its section's palette.
    PaletteIndexOutOfRange,
}

} // verus!
