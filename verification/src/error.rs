use vstd::prelude::*;

verus! {

/// The enumerations whose discriminant is read from a file.
#[derive(Debug, Clone, Copy, PartialEq, Eq, Structural)]
pub enum EnumKind {
    ChunkId,
    LightType,
    SpotlightShape,
    GeometryChannel,
}

/// Ways in which well-framed data breaks the rules of the format.
#[derive(Debug, Clone, Copy, PartialEq, Eq, Structural)]
pub enum SchemaError {
    /// The file does not start with `FORM`.
    NoMagic,
    /// A geometry chunk carries a skin but no vertex positions.
    SkinWithoutVertices,
}

/// Why reading a file, a section or an item failed.
#[derive(Debug, Clone, Copy, PartialEq, Eq, Structural)]
pub enum ReadError {
    /// The input ended before the item did.
    UnexpectedEof,
    /// A string's bytes are not valid UTF-8.
    BadUtf8,
    /// An enumeration's discriminant names no variant.
    BadDiscriminant(EnumKind, u32),
    /// A section claims more bytes than the file has left.
    ItemTooLong(usize),
    /// The data breaks a rule of the format.
    Schema(SchemaError),
}

/// A failed read: why, and the offset that reading had reached. The item that
/// failed is not counted as read, except where its bytes were all there and
/// their meaning was refused (a string that is not UTF-8, an unknown
/// discriminant, a skin flag on a mesh without positions): then reading has
/// passed over them.
pub type Failure = (ReadError, usize);

/// A failed read as specifications speak of it.
pub type FailureAt = (ReadError, int);

} // verus!
