use vstd::prelude::*;

verus! {

/// Why a byte sequence was refused on decode, or a record on encode.
///
/// The set is closed. No failure is retried inside the codec, and a decode that
/// fails returns no partial record.
#[derive(Debug, Clone, Copy, PartialEq, Eq, Structural)]
pub enum CodecError {
    /// Fewer bytes were left than a fixed-width field or a declared length asks for.
    Truncated,
    /// The leading selector bytes are not the ones the wire format starts with.
    InvalidHeader,
    /// A 32-byte integer is not below the modulus of its field.
    InvalidFieldElement,
    /// The transaction kind code is none of 0, 1 and 2.
    InvalidTxKind,
    /// The bytes of a token identifier are not valid UTF-8.
    InvalidUtf8,
    /// The trailing block is shorter than the fixed suffix that is split off it.
    MalformedTrailingData,
    /// A variable-length field is longer than its length prefix can express.
    FieldTooLarge,
}

} // verus!
