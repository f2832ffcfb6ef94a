use vstd::prelude::*;

use crate::keys::{Pubkey, Signature};

verus! {

/// `bs58::decode::Error`, the error of a failed base58 decoding.
#[verifier::external_type_specification]
#[verifier::external_body]
pub struct ExBase58DecodeError(bs58::decode::Error);

/// `bincode::ErrorKind`; `bincode::Error` is a box of it.
#[verifier::external_type_specification]
#[verifier::external_body]
pub struct ExBincodeErrorKind(bincode::ErrorKind);

/// `solana_signature::ParseSignatureError`.
#[verifier::external_type_specification]
#[verifier::external_body]
pub struct ExParseSignatureError(solana_signature::ParseSignatureError);

/// `solana_pubkey::ParsePubkeyError`.
#[verifier::external_type_specification]
#[verifier::external_body]
pub struct ExParsePubkeyError(solana_pubkey::ParsePubkeyError);

/// Every way in which discovering a program's history or rebuilding one of
/// its ELF images can fail.
#[derive(Debug)]
pub enum ProgramRecoverError {
    Base58Decode(bs58::decode::Error),
    LoaderInstructionDecode(Box<bincode::ErrorKind>),
    InvalidSignature { value: String, source: solana_signature::ParseSignatureError },
    InvalidTransactionPubkey {
        signature: Signature,
        value: String,
        source: solana_pubkey::ParsePubkeyError,
    },
    TransactionUnavailable { signature: Signature },
    MissingTransactionMeta { signature: Signature },
    UnsupportedTransactionEncoding { signature: Signature },
    UnsupportedMessageEncoding { signature: Signature },
    UnsupportedInnerInstructionEncoding { signature: Signature },
    InvalidAccountIndex { signature: Signature, index: u8, key_count: usize },
    InvalidInnerInstructionIndex { signature: Signature, index: u8 },
    NoSignatures { address: Pubkey },
    ProgramDataAddressNotFound { program: Pubkey },
    NoVersionEvents { program: Pubkey, programdata: Pubkey },
    NoVersionBeforeClose { program: Pubkey },
    VersionSlotNotFound { slot: u64 },
    AmbiguousVersionSlot { slot: u64, count: usize },
    EventSequenceOverflow,
    CounterOverflow,
    WriteOffsetTooLarge { offset: u32 },
    WriteOffsetOverflow { offset: usize, length: usize },
    NoWriteInstructions { buffer: Pubkey },
    NoWriteChunks,
    SelectedVersionNotReached { signature: Signature },
    MissingElfMagic,
    MissingWriteData { first_gap: usize },
}

impl ProgramRecoverError {
    /// The error for a signature string that does not parse.
    pub fn invalid_signature(
        value: String,
        source: solana_signature::ParseSignatureError,
    ) -> (e: ProgramRecoverError)
        ensures
            e == (ProgramRecoverError::InvalidSignature { value, source }),
    {
        ProgramRecoverError::InvalidSignature { value, source }
    }
}

/// Whether `actual` is the failure that `expected` describes. The errors that
/// carry an outside error value agree on their variant and on the text they
/// name; those outside values themselves are compared by nothing here.
pub open spec fn same_failure(actual: ProgramRecoverError, expected: ProgramRecoverError) -> bool {
    match (actual, expected) {
        (ProgramRecoverError::Base58Decode(_), ProgramRecoverError::Base58Decode(_)) => true,
        (
            ProgramRecoverError::LoaderInstructionDecode(_),
            ProgramRecoverError::LoaderInstructionDecode(_),
        ) => true,
        (
            ProgramRecoverError::InvalidSignature { value: a, .. },
            ProgramRecoverError::InvalidSignature { value: b, .. },
        ) => a@ == b@,
        (
            ProgramRecoverError::InvalidTransactionPubkey { signature: s, value: a, .. },
            ProgramRecoverError::InvalidTransactionPubkey { signature: t, value: b, .. },
        ) => s == t && a@ == b@,
        _ => actual == expected,
    }
}

/// Whether an outcome agrees with the expected one: equal values, or errors
/// that are the same failure.
pub open spec fn agrees<T>(
    actual: Result<T, ProgramRecoverError>,
    expected: Result<T, ProgramRecoverError>,
) -> bool {
    match (actual, expected) {
        (Ok(a), Ok(b)) => a == b,
        (Err(a), Err(b)) => same_failure(a, b),
        _ => false,
    }
}

/// Whether an outcome agrees with the expected one taken as a view: the
/// value's view, or the same failure.
pub open spec fn agrees_view<T: View>(
    actual: Result<T, ProgramRecoverError>,
    expected: Result<T::V, ProgramRecoverError>,
) -> bool {
    match (actual, expected) {
        (Ok(a), Ok(b)) => a@ == b,
        (Err(a), Err(b)) => same_failure(a, b),
        _ => false,
    }
}

} // verus!
