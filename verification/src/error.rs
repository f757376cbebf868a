//! Errors that the engine returns, and the outside error types they carry.

use lmdb::Error as LmdbError;
use prost::DecodeError as ProstDecodeError;
use retry::Error as RetryError;
use std::time::Duration;
use vstd::prelude::*;
use vstd::std_specs::convert::FromSpecImpl;

verus! {

/// `lmdb::Error`: why an operation of the embedded store failed. Nothing is
/// claimed of its contents.
#[verifier::external_type_specification]
#[verifier::external_body]
pub struct ExLmdbError(LmdbError);

/// `prost::DecodeError`: a wire message did not decode. Nothing is claimed of
/// its contents.
#[verifier::external_type_specification]
#[verifier::external_body]
pub struct ExProstDecodeError(ProstDecodeError);

/// `std::io::Error`. Nothing is claimed of its contents.
#[verifier::external_type_specification]
#[verifier::external_body]
pub struct ExIoError(std::io::Error);

/// `crossbeam_channel::SendError`: the message that could not be sent because
/// the receiving side is gone. Nothing is claimed of its contents.
#[verifier::external_type_specification]
#[verifier::external_body]
#[verifier::reject_recursive_types(T)]
pub struct ExSendError<T>(crossbeam_channel::SendError<T>);

/// `retry::Error`: what a retried operation ends with when it gives up. The
/// enum is declared with its variants as the `retry` crate defines them, an
/// operation's last error with the time waited and the number of tries, or a
/// description of an internal fault.
#[verifier::external_type_specification]
#[verifier::reject_recursive_types(E)]
pub struct ExRetryError<E>(RetryError<E>);

/// `Duration::from_millis` of std. The engine only stores the value, so
/// nothing is claimed of it.
pub assume_specification[ Duration::from_millis ](millis: u64) -> (d: Duration)
;

/// Why one attempt to reach a remote node failed.
#[derive(Debug)]
pub struct ConnectionError {
    pub reason: String,
}

/// A failure of the ledger store that the engine reads blocks from.
#[derive(Debug)]
pub enum LedgerDbError {
    /// The ledger holds no such record.
    NotFound,
    /// Any other failure, with the ledger's own description.
    Failure(String),
}

/// A value could not be turned into its stored form.
#[derive(Debug)]
pub struct EncodeError {
    pub reason: String,
}

/// Stored bytes could not be turned back into a value.
#[derive(Debug)]
pub struct DecodeError {
    pub reason: String,
}

/// A message of a remote node could not be turned into a value of the engine.
#[derive(Debug)]
pub struct ConversionError {
    pub reason: String,
}

/// Key material was malformed.
#[derive(Debug)]
pub enum KeyError {
    /// The bytes have the first length; the second was expected.
    LengthMismatch(usize, usize),
    /// The bytes have the right length but are no valid key.
    InvalidKey,
}

/// The metadata of the persistent store could not be used.
#[derive(Debug)]
pub enum MetadataStoreError {
    /// The store was written with the first schema version, and this engine
    /// understands the second.
    VersionIncompatible(u64, u64),
    /// Any other failure, with its description.
    Failure(String),
}

/// The encryption layer of the persistent store failed.
#[derive(Debug)]
pub struct DbCryptoError {
    pub reason: String,
}

/// Everything that an operation of the engine can fail with.
#[derive(Debug)]
pub enum Error {
    /// Failure of the embedded store.
    LMDB(LmdbError),
    /// Failure of the ledger store.
    LedgerDB(LedgerDbError),
    /// Failure to serialize.
    Serialization(EncodeError),
    /// Failure to deserialize.
    Deserialization(DecodeError),
    /// A wire message did not decode.
    ProstDecode(ProstDecodeError),
    /// A remote call failed for good after its retries.
    Connection(RetryError<ConnectionError>),
    /// Input or output failed.
    IO(std::io::Error),
    /// A message of a remote node could not be converted.
    ApiConversion(ConversionError),
    /// Malformed key material.
    Key(KeyError),
    /// The receiver of a notification is gone.
    ChannelSend,
    /// An argument, named first, was rejected for the reason given second.
    InvalidArgument(String, String),
    /// A monitor with this identifier is registered already.
    MonitorIdExists,
    /// No monitor with this identifier is registered.
    MonitorIdNotFound,
    /// Stored key bytes are malformed.
    KeyDeserializationError,
    /// No subaddress with this spend public key is indexed.
    SubaddressSPKNotFound,
    /// A subaddress with this spend public key is indexed already.
    SubaddressSPKIdExists,
    /// A block holds outputs but the ledger has no key images for it.
    MissingKeyImagesInLedgerDb,
    /// The unspent output is recorded already.
    DuplicateUnspentTxOut,
    /// No unspent output is recorded under this subaddress.
    SubaddressIdNotFound,
    /// No unspent output with this identifier is recorded.
    UtxoIdNotFound,
    /// Merging small outputs would not pay off.
    OptimizationNotBeneficial(String),
    /// The transaction could not be assembled.
    TxBuildError(String),
    /// The privacy relay failed.
    FogError(String),
    /// The monitor's unspent outputs do not add up to the amount.
    InsufficientFunds,
    /// The amount is there, but spread over more outputs than one transaction
    /// can take.
    InsufficientFundsFragmentedUtxos,
    /// The node to talk to is not among the peers.
    NodeNotFound,
    /// The ledger does not hold enough outputs to fill the rings.
    InsufficientTxOuts,
    /// The block index, given first, is below the bound given second.
    BlockIndexTooSmall(u64, u64),
    /// The block index, given first, is at or above the monitor's next block,
    /// given second.
    BlockNotYetProcessed(u64, u64),
    /// Failure of the store's metadata.
    MetadataStore(MetadataStoreError),
    /// No peers are configured: the engine serves what it has cached.
    NoPeersConfigured,
    /// Failure of the encryption layer.
    DbCrypto(DbCryptoError),
}

impl From<RetryError<ConnectionError>> for Error {
    fn from(e: RetryError<ConnectionError>) -> (r: Error) {
        Error::Connection(e)
    }
}

impl FromSpecImpl<RetryError<ConnectionError>> for Error {
    open spec fn obeys_from_spec() -> bool {
        true
    }

    open spec fn from_spec(e: RetryError<ConnectionError>) -> Error {
        Error::Connection(e)
    }
}

impl From<LmdbError> for Error {
    fn from(e: LmdbError) -> (r: Error) {
        Error::LMDB(e)
    }
}

impl FromSpecImpl<LmdbError> for Error {
    open spec fn obeys_from_spec() -> bool {
        true
    }

    open spec fn from_spec(e: LmdbError) -> Error {
        Error::LMDB(e)
    }
}

impl From<LedgerDbError> for Error {
    fn from(e: LedgerDbError) -> (r: Error) {
        Error::LedgerDB(e)
    }
}

impl FromSpecImpl<LedgerDbError> for Error {
    open spec fn obeys_from_spec() -> bool {
        true
    }

    open spec fn from_spec(e: LedgerDbError) -> Error {
        Error::LedgerDB(e)
    }
}

impl From<EncodeError> for Error {
    fn from(e: EncodeError) -> (r: Error) {
        Error::Serialization(e)
    }
}

impl FromSpecImpl<EncodeError> for Error {
    open spec fn obeys_from_spec() -> bool {
        true
    }

    open spec fn from_spec(e: EncodeError) -> Error {
        Error::Serialization(e)
    }
}

impl From<DecodeError> for Error {
    fn from(e: DecodeError) -> (r: Error) {
        Error::Deserialization(e)
    }
}

impl FromSpecImpl<DecodeError> for Error {
    open spec fn obeys_from_spec() -> bool {
        true
    }

    open spec fn from_spec(e: DecodeError) -> Error {
        Error::Deserialization(e)
    }
}

impl From<ProstDecodeError> for Error {
    fn from(e: ProstDecodeError) -> (r: Error) {
        Error::ProstDecode(e)
    }
}

impl FromSpecImpl<ProstDecodeError> for Error {
    open spec fn obeys_from_spec() -> bool {
        true
    }

    open spec fn from_spec(e: ProstDecodeError) -> Error {
        Error::ProstDecode(e)
    }
}

impl From<std::io::Error> for Error {
    fn from(e: std::io::Error) -> (r: Error) {
        Error::IO(e)
    }
}

impl FromSpecImpl<std::io::Error> for Error {
    open spec fn obeys_from_spec() -> bool {
        true
    }

    open spec fn from_spec(e: std::io::Error) -> Error {
        Error::IO(e)
    }
}

impl<M> From<crossbeam_channel::SendError<M>> for Error {
    fn from(_e: crossbeam_channel::SendError<M>) -> (r: Error) {
        Error::ChannelSend
    }
}

impl<M> FromSpecImpl<crossbeam_channel::SendError<M>> for Error {
    open spec fn obeys_from_spec() -> bool {
        true
    }

    open spec fn from_spec(_e: crossbeam_channel::SendError<M>) -> Error {
        Error::ChannelSend
    }
}

impl From<ConversionError> for Error {
    fn from(e: ConversionError) -> (r: Error) {
        Error::ApiConversion(e)
    }
}

impl FromSpecImpl<ConversionError> for Error {
    open spec fn obeys_from_spec() -> bool {
        true
    }

    open spec fn from_spec(e: ConversionError) -> Error {
        Error::ApiConversion(e)
    }
}

impl From<KeyError> for Error {
    fn from(e: KeyError) -> (r: Error) {
        Error::Key(e)
    }
}

impl FromSpecImpl<KeyError> for Error {
    open spec fn obeys_from_spec() -> bool {
        true
    }

    open spec fn from_spec(e: KeyError) -> Error {
        Error::Key(e)
    }
}

impl From<MetadataStoreError> for Error {
    fn from(e: MetadataStoreError) -> (r: Error) {
        Error::MetadataStore(e)
    }
}

impl FromSpecImpl<MetadataStoreError> for Error {
    open spec fn obeys_from_spec() -> bool {
        true
    }

    open spec fn from_spec(e: MetadataStoreError) -> Error {
        Error::MetadataStore(e)
    }
}

impl From<DbCryptoError> for Error {
    fn from(e: DbCryptoError) -> (r: Error) {
        Error::DbCrypto(e)
    }
}

impl FromSpecImpl<DbCryptoError> for Error {
    open spec fn obeys_from_spec() -> bool {
        true
    }

    open spec fn from_spec(e: DbCryptoError) -> Error {
        Error::DbCrypto(e)
    }
}

/// The families into which the engine's errors fall, by how a caller deals
/// with them.
#[derive(Clone, Copy, Debug, PartialEq, Eq, Structural)]
pub enum ErrorKind {
    /// The persistent store failed: the request fails, the sync loop tries
    /// again on its next tick.
    Storage,
    /// The ledger store failed: local state is untouched.
    Ledger,
    /// A remote call failed after its retries.
    Network,
    /// No peers are configured. This is a mode of operation, not a fault.
    Offline,
    /// Something is there already, or is not there: the caller adjusts the
    /// request.
    Conflict,
    /// An expected outcome of a valid request.
    Domain,
    /// Upstream data breaks an assumption: the step is abandoned.
    Integrity,
    /// A value could not be converted or decoded.
    Conversion,
    /// The caller's argument was rejected, or a notification found no
    /// receiver.
    Usage,
}

impl Error {
    /// The family of this error.
    pub open spec fn spec_kind(self) -> ErrorKind {
        match self {
            Error::LMDB(_) | Error::IO(_) | Error::MetadataStore(_) | Error::DbCrypto(_)
            | Error::Serialization(_) | Error::Deserialization(_) => ErrorKind::Storage,
            Error::LedgerDB(_) => ErrorKind::Ledger,
            Error::Connection(_) | Error::NodeNotFound => ErrorKind::Network,
            Error::NoPeersConfigured => ErrorKind::Offline,
            Error::MonitorIdExists | Error::MonitorIdNotFound | Error::SubaddressSPKNotFound
            | Error::SubaddressSPKIdExists | Error::DuplicateUnspentTxOut
            | Error::SubaddressIdNotFound | Error::UtxoIdNotFound
            | Error::BlockIndexTooSmall(_, _) | Error::BlockNotYetProcessed(_, _) => {
                ErrorKind::Conflict
            },
            Error::InsufficientFunds | Error::InsufficientFundsFragmentedUtxos
            | Error::InsufficientTxOuts | Error::OptimizationNotBeneficial(_)
            | Error::TxBuildError(_) | Error::FogError(_) => ErrorKind::Domain,
            Error::MissingKeyImagesInLedgerDb | Error::KeyDeserializationError => {
                ErrorKind::Integrity
            },
            Error::ProstDecode(_) | Error::ApiConversion(_) | Error::Key(_) => {
                ErrorKind::Conversion
            },
            Error::ChannelSend | Error::InvalidArgument(_, _) => ErrorKind::Usage,
        }
    }

    /// Tells which family this error belongs to.
    pub fn kind(&self) -> (k: ErrorKind)
        ensures
            k == self.spec_kind(),
    {
        match self {
            Error::LMDB(_) | Error::IO(_) | Error::MetadataStore(_) | Error::DbCrypto(_)
            | Error::Serialization(_) | Error::Deserialization(_) => ErrorKind::Storage,
            Error::LedgerDB(_) => ErrorKind::Ledger,
            Error::Connection(_) | Error::NodeNotFound => ErrorKind::Network,
            Error::NoPeersConfigured => ErrorKind::Offline,
            Error::MonitorIdExists | Error::MonitorIdNotFound | Error::SubaddressSPKNotFound
            | Error::SubaddressSPKIdExists | Error::DuplicateUnspentTxOut
            | Error::SubaddressIdNotFound | Error::UtxoIdNotFound
            | Error::BlockIndexTooSmall(_, _) | Error::BlockNotYetProcessed(_, _) => {
                ErrorKind::Conflict
            },
            Error::InsufficientFunds | Error::InsufficientFundsFragmentedUtxos
            | Error::InsufficientTxOuts | Error::OptimizationNotBeneficial(_)
            | Error::TxBuildError(_) | Error::FogError(_) => ErrorKind::Domain,
            Error::MissingKeyImagesInLedgerDb | Error::KeyDeserializationError => {
                ErrorKind::Integrity
            },
            Error::ProstDecode(_) | Error::ApiConversion(_) | Error::Key(_) => {
                ErrorKind::Conversion
            },
            Error::ChannelSend | Error::InvalidArgument(_, _) => ErrorKind::Usage,
        }
    }
}

} // verus!
