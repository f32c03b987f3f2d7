//! What can go wrong between a checkpoint and its record.

use vstd::prelude::*;

verus! {

#[derive(Debug, Clone, Copy, PartialEq, Eq, Structural)]
pub enum Error {
    /// A capture or a counter was asked for after the cycle had used every slot.
    CapacityExceeded,
    /// A reading was sent after the aggregator had gone.
    TransportClosed,
    /// The output file could not be opened or appended to.
    SinkUnavailable,
    /// A record could not be encoded.
    SerializationFault,
}

impl Error {
    /// Whether the context in which the error arose can go on. A full buffer
    /// is a sizing mistake and a record that cannot be encoded is corrupt
    /// state; a closed transport or a missing sink only loses output.
    pub open spec fn fatal(self) -> bool {
        self == Error::CapacityExceeded || self == Error::SerializationFault
    }

    #[verifier::when_used_as_spec(fatal)]
    pub fn is_fatal(self) -> (fatal: bool)
        ensures
            fatal == self.fatal(),
    {
        match self {
            Error::CapacityExceeded => true,
            Error::TransportClosed => false,
            Error::SinkUnavailable => false,
            Error::SerializationFault => true,
        }
    }
}

} // verus!
