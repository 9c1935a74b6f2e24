use vstd::prelude::*;

verus! {

/// Structured protocol error. Each variant carries a stable numeric code
/// (exposed through [`PQFSRError::code`]), a human-readable message and a
/// recovery hint. Codes are grouped by area: 1000s session lifecycle,
/// 2000s handshake, 3000s cryptography, 4000s serialization, 5000s
/// signatures, 9000s generic.
#[derive(Clone, Copy, Debug, PartialEq, Eq, Structural)]
pub enum PQFSRError {
    SessionNotReady,
    InitiatorOnly,
    ResponderOnly,
    InvalidSessionState,
    HandshakeReplay,
    VersionNegotiationFailed,
    SignatureVerificationFailed,
    HandshakeRequestFailed,
    HandshakeAcceptFailed,
    HandshakeFinalizeFailed,
    InvalidHandshakeRequest,
    InvalidHandshakeResponse,
    SemanticTagMismatch,
    NonceMismatch,
    MessageAlreadyProcessed,
    DecryptionFailed,
    EncryptionFailed,
    InvalidKeyFormat,
    KEMOperationFailed,
    InvalidPacketFormat,
    PacketTooShort,
    InvalidPassword,
    SerializationFailed,
    DeserializationFailed,
    StateEncryptionFailed,
    StateDecryptionFailed,
    SignatureGenerationFailed,
    InvalidSignatureFormat,
    InvalidInput,
    InternalError,
    NotSupported,
}

/// The numeric code of each error variant.
pub open spec fn error_code_spec(e: PQFSRError) -> u32 {
    match e {
        PQFSRError::SessionNotReady => 1001,
        PQFSRError::InitiatorOnly => 1002,
        PQFSRError::ResponderOnly => 1003,
        PQFSRError::InvalidSessionState => 1004,
        PQFSRError::HandshakeReplay => 2001,
        PQFSRError::VersionNegotiationFailed => 2002,
        PQFSRError::SignatureVerificationFailed => 2003,
        PQFSRError::HandshakeRequestFailed => 2004,
        PQFSRError::HandshakeAcceptFailed => 2005,
        PQFSRError::HandshakeFinalizeFailed => 2006,
        PQFSRError::InvalidHandshakeRequest => 2007,
        PQFSRError::InvalidHandshakeResponse => 2008,
        PQFSRError::SemanticTagMismatch => 3001,
        PQFSRError::NonceMismatch => 3002,
        PQFSRError::MessageAlreadyProcessed => 3003,
        PQFSRError::DecryptionFailed => 3004,
        PQFSRError::EncryptionFailed => 3005,
        PQFSRError::InvalidKeyFormat => 3006,
        PQFSRError::KEMOperationFailed => 3007,
        PQFSRError::InvalidPacketFormat => 4001,
        PQFSRError::PacketTooShort => 4002,
        PQFSRError::InvalidPassword => 4003,
        PQFSRError::SerializationFailed => 4004,
        PQFSRError::DeserializationFailed => 4005,
        PQFSRError::StateEncryptionFailed => 4006,
        PQFSRError::StateDecryptionFailed => 4007,
        PQFSRError::SignatureGenerationFailed => 5001,
        PQFSRError::InvalidSignatureFormat => 5002,
        PQFSRError::InvalidInput => 9001,
        PQFSRError::NotSupported => 9002,
        PQFSRError::InternalError => 9999,
    }
}

impl PQFSRError {
    /// Numeric error code; codes are grouped by thousand into the areas
    /// listed on the type.
    pub fn code(&self) -> (r: u32)
        ensures
            r == error_code_spec(*self),
    {
        match self {
            PQFSRError::SessionNotReady => 1001,
            PQFSRError::InitiatorOnly => 1002,
            PQFSRError::ResponderOnly => 1003,
            PQFSRError::InvalidSessionState => 1004,
            PQFSRError::HandshakeReplay => 2001,
            PQFSRError::VersionNegotiationFailed => 2002,
            PQFSRError::SignatureVerificationFailed => 2003,
            PQFSRError::HandshakeRequestFailed => 2004,
            PQFSRError::HandshakeAcceptFailed => 2005,
            PQFSRError::HandshakeFinalizeFailed => 2006,
            PQFSRError::InvalidHandshakeRequest => 2007,
            PQFSRError::InvalidHandshakeResponse => 2008,
            PQFSRError::SemanticTagMismatch => 3001,
            PQFSRError::NonceMismatch => 3002,
            PQFSRError::MessageAlreadyProcessed => 3003,
            PQFSRError::DecryptionFailed => 3004,
            PQFSRError::EncryptionFailed => 3005,
            PQFSRError::InvalidKeyFormat => 3006,
            PQFSRError::KEMOperationFailed => 3007,
            PQFSRError::InvalidPacketFormat => 4001,
            PQFSRError::PacketTooShort => 4002,
            PQFSRError::InvalidPassword => 4003,
            PQFSRError::SerializationFailed => 4004,
            PQFSRError::DeserializationFailed => 4005,
            PQFSRError::StateEncryptionFailed => 4006,
            PQFSRError::StateDecryptionFailed => 4007,
            PQFSRError::SignatureGenerationFailed => 5001,
            PQFSRError::InvalidSignatureFormat => 5002,
            PQFSRError::InvalidInput => 9001,
            PQFSRError::NotSupported => 9002,
            PQFSRError::InternalError => 9999,
        }
    }

    /// Human-readable description of the error.
    pub fn message(&self) -> &'static str {
        match self {
            PQFSRError::SessionNotReady => "Session is not ready for this operation",
            PQFSRError::InitiatorOnly => "Only initiators can perform this operation",
            PQFSRError::ResponderOnly => "Only responders can perform this operation",
            PQFSRError::InvalidSessionState => "Invalid session state",
            PQFSRError::HandshakeReplay => "Handshake replay detected",
            PQFSRError::VersionNegotiationFailed => "Version negotiation failed",
            PQFSRError::SignatureVerificationFailed => "Signature verification failed",
            PQFSRError::HandshakeRequestFailed => "Handshake request creation failed",
            PQFSRError::HandshakeAcceptFailed => "Handshake acceptance failed",
            PQFSRError::HandshakeFinalizeFailed => "Handshake finalization failed",
            PQFSRError::InvalidHandshakeRequest => "Invalid handshake request",
            PQFSRError::InvalidHandshakeResponse => "Invalid handshake response",
            PQFSRError::SemanticTagMismatch => {
                "Semantic tag mismatch - packet may be corrupted or from different session"
            },
            PQFSRError::NonceMismatch => "Nonce mismatch - packet may be corrupted or replayed",
            PQFSRError::MessageAlreadyProcessed => "Message has already been processed",
            PQFSRError::DecryptionFailed => "Decryption failed",
            PQFSRError::EncryptionFailed => "Encryption failed",
            PQFSRError::InvalidKeyFormat => "Invalid key format",
            PQFSRError::KEMOperationFailed => "KEM operation failed",
            PQFSRError::InvalidPacketFormat => "Invalid packet format",
            PQFSRError::PacketTooShort => "Packet too short",
            PQFSRError::InvalidPassword => "Invalid password for state decryption",
            PQFSRError::SerializationFailed => "Serialization failed",
            PQFSRError::DeserializationFailed => "Deserialization failed",
            PQFSRError::StateEncryptionFailed => "State encryption failed",
            PQFSRError::StateDecryptionFailed => "State decryption failed",
            PQFSRError::SignatureGenerationFailed => "Signature generation failed",
            PQFSRError::InvalidSignatureFormat => "Invalid signature format",
            PQFSRError::InvalidInput => "Invalid input parameter",
            PQFSRError::NotSupported => "Operation not supported",
            PQFSRError::InternalError => "Internal error",
        }
    }

    /// Recovery guidance for the error.
    pub fn recovery(&self) -> &'static str {
        match self {
            PQFSRError::SessionNotReady => {
                "Complete the handshake process before attempting this operation"
            },
            PQFSRError::InitiatorOnly => "Use an initiator session for this operation",
            PQFSRError::ResponderOnly => "Use a responder session for this operation",
            PQFSRError::InvalidSessionState => "Reset the session and start a new handshake",
            PQFSRError::HandshakeReplay => {
                "This handshake has already been processed. Start a new handshake if needed"
            },
            PQFSRError::VersionNegotiationFailed => {
                "Update to a compatible version or use a version within the supported range"
            },
            PQFSRError::SignatureVerificationFailed => {
                "Verify the signature public key is correct and the message was not tampered with"
            },
            PQFSRError::HandshakeRequestFailed => "Retry creating the handshake request",
            PQFSRError::HandshakeAcceptFailed => "Ask the initiator to start a new handshake",
            PQFSRError::HandshakeFinalizeFailed => "Start a new handshake",
            PQFSRError::InvalidHandshakeRequest => "Verify the request was transmitted intact",
            PQFSRError::InvalidHandshakeResponse => "Verify the response was transmitted intact",
            PQFSRError::SemanticTagMismatch => {
                "Verify that the packet belongs to this session and was not corrupted"
            },
            PQFSRError::NonceMismatch => {
                "Verify packet integrity and ensure it has not been replayed"
            },
            PQFSRError::MessageAlreadyProcessed => {
                "This message was already decrypted. Skip it or check for duplicate transmission"
            },
            PQFSRError::DecryptionFailed => {
                "Verify the packet is valid, belongs to this session, and was not corrupted"
            },
            PQFSRError::EncryptionFailed => "Retry the operation with valid inputs",
            PQFSRError::InvalidKeyFormat => "Provide a key of the expected length",
            PQFSRError::KEMOperationFailed => "Verify the KEM key material is well-formed",
            PQFSRError::InvalidPacketFormat => {
                "Verify packet structure and ensure it was packed correctly"
            },
            PQFSRError::PacketTooShort => {
                "Verify packet completeness and ensure no truncation occurred"
            },
            PQFSRError::InvalidPassword => {
                "Verify the password is correct and matches the one used for encryption"
            },
            PQFSRError::SerializationFailed => "Retry exporting the state",
            PQFSRError::DeserializationFailed => "Verify the state blob was not corrupted",
            PQFSRError::StateEncryptionFailed => "Retry encrypting the state",
            PQFSRError::StateDecryptionFailed => "Verify the blob and password",
            PQFSRError::SignatureGenerationFailed => "Verify the signing key is well-formed",
            PQFSRError::InvalidSignatureFormat => "Provide a signature of the expected form",
            PQFSRError::InvalidInput => "Provide a valid value for the parameter",
            PQFSRError::NotSupported => "Use a supported operation",
            PQFSRError::InternalError => "This is an unexpected error. Please report it",
        }
    }
}

/// Result type alias for protocol operations.
pub type PQFSRResult<T> = Result<T, PQFSRError>;

} // verus!
