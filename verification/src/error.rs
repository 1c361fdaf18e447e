use vstd::prelude::*;

verus! {

/// The ways a byte stream can fail to be a complete transfer.
#[derive(Clone, Copy, Debug, PartialEq, Eq, Structural)]
pub enum TransferError {
    /// The stream closed before all eight bytes of the size prefix arrived.
    ShortPrefix,
    /// The stream closed after the size prefix but before the announced
    /// number of payload bytes arrived.
    Truncated,
}

impl TransferError {
    /// A one-line description for the operator.
    pub fn message(&self) -> (s: &'static str)
        ensures
            *self == TransferError::ShortPrefix ==> s@ == "stream closed inside the size prefix"@,
            *self == TransferError::Truncated ==> s@ == "stream closed before the announced payload length"@,
    {
        match self {
            TransferError::ShortPrefix => "stream closed inside the size prefix",
            TransferError::Truncated => "stream closed before the announced payload length",
        }
    }
}

} // verus!
