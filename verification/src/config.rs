//! The configuration model: an immutable bundle of encoding options consulted
//! by every other component. A `Config` is selected once per encode or decode
//! call and never changes mid-traversal.

use vstd::prelude::*;

verus! {

/// Byte order for the fixed-width payload of an encoded integer.
#[derive(Clone, Copy, Debug, PartialEq, Eq, Structural)]
pub enum Endianness {
    Little,
    Big,
}

/// How integers are laid out on the wire: the tiered variable-width scheme,
/// or always the integer's native width.
#[derive(Clone, Copy, Debug, PartialEq, Eq, Structural)]
pub enum IntEncoding {
    Varint,
    Fixed,
}

/// Bound on the total bytes a single decode call may claim.
#[derive(Clone, Copy, Debug, PartialEq, Eq, Structural)]
pub enum Limit {
    Unlimited,
    Bytes(usize),
}

/// An immutable bundle of encoding options. Shared read-only by every nested
/// encode/decode call; it never changes for the duration of one call.
#[derive(Clone, Copy, Debug, PartialEq, Eq, Structural)]
pub struct Config {
    pub endianness: Endianness,
    pub int_encoding: IntEncoding,
    /// When true, the statically known length of a fixed-size array is not
    /// repeated on the wire.
    pub skip_fixed_array_length: bool,
    pub limit: Limit,
}

/// The generous default bound on bytes one decode call may claim: enough
/// for any honest value, small enough to starve a hostile length field.
pub const DEFAULT_LIMIT: usize = 0xFFFF_FFFF;

/// The standard preset: tiered varints, little-endian payloads, fixed-size
/// array lengths skipped, and a generous default limit on decoded bytes.
pub fn standard() -> (c: Config)
    ensures
        c.endianness == Endianness::Little,
        c.int_encoding == IntEncoding::Varint,
        c.skip_fixed_array_length,
        c.limit == Limit::Bytes(DEFAULT_LIMIT),
{
    Config {
        endianness: Endianness::Little,
        int_encoding: IntEncoding::Varint,
        skip_fixed_array_length: true,
        limit: Limit::Bytes(DEFAULT_LIMIT),
    }
}

/// The legacy preset, for wire compatibility with older encodings: every
/// integer at its native width, little-endian payloads, every array length
/// written.
pub fn legacy() -> (c: Config)
    ensures
        c.endianness == Endianness::Little,
        c.int_encoding == IntEncoding::Fixed,
        !c.skip_fixed_array_length,
        c.limit == Limit::Unlimited,
{
    Config {
        endianness: Endianness::Little,
        int_encoding: IntEncoding::Fixed,
        skip_fixed_array_length: false,
        limit: Limit::Unlimited,
    }
}

impl Config {
    /// The same options, with decode claims bounded by `n` bytes.
    pub fn with_limit(self, n: usize) -> (c: Config)
        ensures
            c.limit == Limit::Bytes(n),
            c.endianness == self.endianness,
            c.int_encoding == self.int_encoding,
            c.skip_fixed_array_length == self.skip_fixed_array_length,
    {
        Config { limit: Limit::Bytes(n), ..self }
    }

    /// The same options, with decode claims unbounded.
    pub fn with_no_limit(self) -> (c: Config)
        ensures
            c.limit == Limit::Unlimited,
            c.endianness == self.endianness,
            c.int_encoding == self.int_encoding,
            c.skip_fixed_array_length == self.skip_fixed_array_length,
    {
        Config { limit: Limit::Unlimited, ..self }
    }

    /// The same options, with big-endian payloads.
    pub fn with_big_endian(self) -> (c: Config)
        ensures
            c.endianness == Endianness::Big,
            c.limit == self.limit,
            c.int_encoding == self.int_encoding,
            c.skip_fixed_array_length == self.skip_fixed_array_length,
    {
        Config { endianness: Endianness::Big, ..self }
    }

    /// The same options, with little-endian payloads.
    pub fn with_little_endian(self) -> (c: Config)
        ensures
            c.endianness == Endianness::Little,
            c.limit == self.limit,
            c.int_encoding == self.int_encoding,
            c.skip_fixed_array_length == self.skip_fixed_array_length,
    {
        Config { endianness: Endianness::Little, ..self }
    }

    /// The same options, with the tiered variable-width integer scheme.
    pub fn with_variable_int_encoding(self) -> (c: Config)
        ensures
            c.int_encoding == IntEncoding::Varint,
            c.limit == self.limit,
            c.endianness == self.endianness,
            c.skip_fixed_array_length == self.skip_fixed_array_length,
    {
        Config { int_encoding: IntEncoding::Varint, ..self }
    }

    /// The same options, with every integer written at its native width.
    pub fn with_fixed_int_encoding(self) -> (c: Config)
        ensures
            c.int_encoding == IntEncoding::Fixed,
            c.limit == self.limit,
            c.endianness == self.endianness,
            c.skip_fixed_array_length == self.skip_fixed_array_length,
    {
        Config { int_encoding: IntEncoding::Fixed, ..self }
    }
}

} // verus!
