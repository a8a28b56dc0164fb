use vstd::prelude::*;

verus! {

/// Ways an options-market operation can be refused.
#[derive(Clone, Copy, Debug, PartialEq, Eq, Structural)]
pub enum Error {
    AlreadyInitialized,
    Unauthorized,
    SeriesNotFound,
    SeriesNotActive,
    SeriesNotExpired,
    PositionNotFound,
    InsufficientPremium,
    InsufficientCollateral,
    AlreadyExercised,
    AlreadySettled,
    ExerciseWindowClosed,
    ZeroContracts,
    PriceNotSet,
    NotInTheMoney,
    WrongSide,
    ExpiryTooSoon,
    ContractPaused,
    SeriesNotCancelled,
    InvalidFeeRate,
    TooManySeriesForUnderlying,
    InsufficientPremiumPool,
    InvalidSeriesParams,
    InvalidBatchSize,
    NothingToEscrow,
}

/// The number under which each error is reported to callers.
pub open spec fn error_number(e: Error) -> u32 {
    match e {
        Error::AlreadyInitialized => 1,
        Error::Unauthorized => 2,
        Error::SeriesNotFound => 3,
        Error::SeriesNotActive => 4,
        Error::SeriesNotExpired => 5,
        Error::PositionNotFound => 6,
        Error::InsufficientPremium => 7,
        Error::InsufficientCollateral => 8,
        Error::AlreadyExercised => 9,
        Error::AlreadySettled => 10,
        Error::ExerciseWindowClosed => 11,
        Error::ZeroContracts => 12,
        Error::PriceNotSet => 13,
        Error::NotInTheMoney => 14,
        Error::WrongSide => 15,
        Error::ExpiryTooSoon => 16,
        Error::ContractPaused => 17,
        Error::SeriesNotCancelled => 18,
        Error::InvalidFeeRate => 19,
        Error::TooManySeriesForUnderlying => 20,
        Error::InsufficientPremiumPool => 21,
        Error::InvalidSeriesParams => 22,
        Error::InvalidBatchSize => 23,
        Error::NothingToEscrow => 24,
    }
}

impl Error {
    /// The number under which this error is reported to callers.
    pub fn code(&self) -> (c: u32)
        ensures
            c == error_number(*self),
    {
        match self {
            Error::AlreadyInitialized => 1,
            Error::Unauthorized => 2,
            Error::SeriesNotFound => 3,
            Error::SeriesNotActive => 4,
            Error::SeriesNotExpired => 5,
            Error::PositionNotFound => 6,
            Error::InsufficientPremium => 7,
            Error::InsufficientCollateral => 8,
            Error::AlreadyExercised => 9,
            Error::AlreadySettled => 10,
            Error::ExerciseWindowClosed => 11,
            Error::ZeroContracts => 12,
            Error::PriceNotSet => 13,
            Error::NotInTheMoney => 14,
            Error::WrongSide => 15,
            Error::ExpiryTooSoon => 16,
            Error::ContractPaused => 17,
            Error::SeriesNotCancelled => 18,
            Error::InvalidFeeRate => 19,
            Error::TooManySeriesForUnderlying => 20,
            Error::InsufficientPremiumPool => 21,
            Error::InvalidSeriesParams => 22,
            Error::InvalidBatchSize => 23,
            Error::NothingToEscrow => 24,
        }
    }
}

} // verus!
