use vstd::prelude::*;

verus! {

/// Why an operation on wire data, keys or requests failed.
#[derive(Debug, Clone, Copy, PartialEq, Eq, Structural)]
pub enum ProtoError {
    /// A field reaches past the end of the available bytes.
    UnexpectedEnd,
    /// Bytes were left over after a field that must fill its space exactly.
    TrailingBytes,
    /// A label is empty where it may not be, or longer than 63 octets.
    BadLabel,
    /// A name is longer than 255 octets in wire form.
    NameTooLong,
    /// A label type other than a plain label or a backward pointer.
    BadLabelType,
    /// A compression pointer that does not point strictly backwards.
    BadPointer,
    /// Service parameter keys are not in strictly increasing order.
    ParamsOutOfOrder,
    /// A service parameter value does not have the shape its key requires.
    MalformedParam,
    /// A length does not fit in its two-octet length field.
    LengthOverflow,
    /// Text that is not UTF-8 where UTF-8 is required.
    NotUtf8,
    /// A section count in a message header does not match its records.
    CountMismatch,
    /// The signing algorithm is unknown or not supported.
    UnsupportedAlgorithm,
    /// Public key bytes that do not have the algorithm's layout.
    MalformedKey,
    /// A signature that does not verify, or that names another algorithm.
    BadSignature,
    /// A signature used outside its validity window.
    OutsideValidity,
    /// Records not given in canonical order, or given twice.
    NotCanonical,
}

} // verus!
