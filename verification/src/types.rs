//! Data types shared across the oracle: errors, price records, history
//! entries and the ledger clock.

use vstd::prelude::*;

verus! {

/// Reasons an operation is refused.
#[derive(Clone, Copy, Debug, PartialEq, Eq, Structural)]
pub enum ErrorCode {
    AlreadyInitialized,
    NotInitialized,
    NotAuthorized,
    InvalidConfiguration,
    DescriptionTooLong,
    SourceAlreadyExists,
    SourceNotFound,
    AssetAlreadyRegistered,
    AssetNotRegistered,
    MaxAssetsReached,
    InvalidPrice,
    InvalidTimestamp,
    InvalidNonce,
    PriceOutOfBounds,
    PriceBelowMinimum,
    AssetPaused,
    CircuitBreakerTripped,
    ContractPaused,
    CommitRevealRequired,
    NoData,
    ReasonTooLong,
    RecordsLimitExceeded,
    InsufficientSources,
    InvalidPageSize,
    RateLimitExceeded,
    RevealWindowClosed,
    AlreadyCommitted,
    CommitExpired,
    CommitNotFound,
    CommitHashMismatch,
    OperationNotFound,
    AlreadyApproved,
    ApprovalNotFound,
    MsNotQueueHead,
    MsQuorumNotReached,
    TimelockNotReady,
    InvalidOperationType,
    ProposalNotFound,
    ProposalAlreadyDisputed,
    ProposalAlreadyResolved,
    ProposalExpired,
    ProposalNotDisputed,
    BondTooSmall,
    InvalidExternalProof,
    RelayerAlreadyExists,
    RelayerNotAuthorized,
    RelayerBondInsufficient,
    RelayerFailureThresholdNotReached,
    BatchEmpty,
    BatchTooLarge,
    BatchNotFeePrioritized,
    InvalidProof,
    ProofTypeMismatch,
    InsufficientBond,
    ReputationTooHighToSlash,
    StakeTokenNotConfigured,
    ArithmeticOverflow,
    InvalidTradeSize,
    PoolNotFound,
    InvalidOhlcvRange,
    OperationAlreadyExists,
    InvalidOperationState,
    DependencyNotMet,
    TooManyCallbacks,
    CallbackNotFound,
    NotificationConfigInvalid,
    Reentrant,
    IbcClientNotSet,
    IbcQuorumNotMet,
    IbcDenomNotMapped,
    IbcConsensusStateNotFound,
    IbcClientExpired,
    IbcPacketReplayed,
    IbcInvalidProof,
    LzEndpointNotConfigured,
    LzNonceOutOfOrder,
    LzRemoteNotTrusted,
    LzChainNameNotConfigured,
    SignatureExpired,
}

/// The ledger clock: sequence number and close time in seconds.
#[derive(Clone, Copy, Debug, PartialEq, Eq, Structural)]
pub struct LedgerInfo {
    pub sequence: u32,
    pub timestamp: u64,
}

/// One source's latest price for one asset.
#[derive(Clone, Copy, Debug, PartialEq, Eq, Structural)]
pub struct PriceEntry {
    pub price: i128,
    pub timestamp: u64,
    pub source: u64,
    pub decimals: u32,
    pub last_updated: u32,
    pub ledger_timestamp: u64,
    pub volume: Option<i128>,
}

/// The published price of an asset.
#[derive(Clone, Copy, Debug, PartialEq, Eq, Structural)]
pub struct AggregatePrice {
    pub price: i128,
    pub timestamp: u64,
    pub num_sources: u32,
    pub decimals: u32,
    pub is_override: bool,
    pub version: u32,
}

/// One recorded aggregate in an asset's price history.
#[derive(Clone, Copy, Debug, PartialEq, Eq, Structural)]
pub struct PriceHistoryEntry {
    pub price: i128,
    pub timestamp: u64,
    pub ledger: u32,
    pub num_sources: u32,
    pub is_interpolated: bool,
}

/// A price as reported through the SEP-40 interface.
#[derive(Clone, Copy, Debug, PartialEq, Eq, Structural)]
pub struct PriceData {
    pub price: i128,
    pub timestamp: u64,
    pub last_updated: u32,
}

/// An administrator's manual price, valid up to and including `expiry_ledger`.
#[derive(Clone, Debug)]
pub struct PriceOverrideEntry {
    pub price: i128,
    pub reason: String,
    pub expiry_ledger: u32,
    pub set_ledger: u32,
}

/// Per-asset validation limits for submissions.
#[derive(Clone, Copy, Debug, PartialEq, Eq, Structural)]
pub struct PriceBounds {
    pub min_price: i128,
    pub max_price: i128,
    pub max_change_bps_per_ledger: u32,
}

/// An asset as named by the SEP-40 interface.
#[derive(Clone, Debug)]
pub enum Asset {
    Stellar(u64),
    Other(String),
}

/// Averaging used for a time-weighted average price.
#[derive(Clone, Copy, Debug, PartialEq, Eq, Structural)]
pub enum TwapMethod {
    Arithmetic,
    Geometric,
}

/// A source's commitment to a price for one asset and round of the
/// commit-reveal scheme.
#[derive(Clone, Copy, Debug)]
pub struct PriceCommit {
    pub hash: [u8; 32],
    pub committed_ledger: u32,
    pub source: u64,
    pub asset: u64,
    pub revealed: bool,
}

/// Outcome of a history compaction.
#[derive(Clone, Copy, Debug, PartialEq, Eq, Structural)]
pub struct CompactionMetadata {
    pub original_count: u32,
    pub compacted_count: u32,
    pub last_compaction_ledger: u32,
    pub threshold_bps: u32,
}

} // verus!
