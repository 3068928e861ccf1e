use vstd::prelude::*;

verus! {

/// Errors reported while decoding frames and records.
#[derive(Clone, Copy, Debug, PartialEq, Eq, Structural)]
pub enum ParsingError {
    /// A structural slice was shorter than its declared or fixed size.
    SrcInsufficent { required: usize, provided: usize },
    /// The trailing two bytes do not match the running-sum checksum of the
    /// preceding bytes.
    BadChecksum,
    /// One subfield extraction overran its record's data.
    FieldDecodeFailure,
}

} // verus!
