use vstd::prelude::*;

use crate::digital_assets_error::DigitalAssetError;

verus! {

/// The error of `tari_utilities::message_format` for a value that could not be
/// written in, or read from, one of its formats. It is carried as it is: nothing
/// is said of what it holds.
#[verifier::external_type_specification]
#[verifier::external_body]
pub struct ExMessageFormatError(tari_utilities::message_format::MessageFormatError);

/// Why the messaging layer could not hand over a stored message. The ledger layer
/// does not look into these failures and does not recover from them: it reports
/// each to its host as a failure of the transport.
#[derive(Debug)]
pub enum StoreAndForwardError {
    /// The message could not be decoded, with the words of the messaging layer.
    MessageError(String),
    /// The peer is not known or cannot be used, with the words of the messaging layer.
    PeerManagerError(String),
    /// The message is in none of the formats that are understood.
    MessageFormatError(tari_utilities::message_format::MessageFormatError),
    /// The message could not be sent on, with the words of the messaging layer.
    DhtOutboundError(String),
    /// Received stored message has an invalid destination
    InvalidDestination,
    /// Received stored message has an invalid origin signature
    InvalidSignature,
    /// Received stored message which is not encrypted
    StoredMessageNotEncrypted,
    /// Unable to decrypt received stored message
    DecryptionFailed,
    /// The cipher failed, with its words.
    CipherError(String),
}

impl From<StoreAndForwardError> for DigitalAssetError {
    /// Whatever went wrong in the messaging layer is a failure of the transport.
    fn from(error: StoreAndForwardError) -> (reported: Self) {
        DigitalAssetError::TransportFailure
    }
}

impl vstd::std_specs::convert::FromSpecImpl<StoreAndForwardError> for DigitalAssetError {
    open spec fn obeys_from_spec() -> bool {
        true
    }

    open spec fn from_spec(error: StoreAndForwardError) -> Self {
        DigitalAssetError::TransportFailure
    }
}

} // verus!
