//! The registry behind the options market's settlement prices: an admin
//! set once at initialization, with the freshness window and the quorum of
//! fresh reports that price aggregation is configured with.
use vstd::prelude::*;
use crate::ids::AccountId;

verus! {

/// How long, in seconds, a report counts as fresh unless configured otherwise.
pub const DEFAULT_MAX_STALENESS: u64 = 3600;

/// How many fresh reports an aggregate needs unless configured otherwise.
pub const DEFAULT_MIN_REPORTS: u32 = 1;

/// Caps how many feeders can be authorized at once, so aggregation stays
/// bounded however many feeders are added over the contract's lifetime.
pub const MAX_FEEDERS: u32 = 16;

/// Ways a price-oracle operation can be refused.
#[derive(Clone, Copy, Debug, PartialEq, Eq, Structural)]
pub enum Error {
    AlreadyInitialized,
    FeederAlreadyAdded,
    FeederNotFound,
    NotAFeeder,
    InvalidPrice,
    ContractPaused,
    InvalidStaleness,
    TooManyFeeders,
    Unauthorized,
    InvalidMinReports,
}

/// The number under which each error is reported to callers.
pub open spec fn error_number(e: Error) -> u32 {
    match e {
        Error::AlreadyInitialized => 1,
        Error::FeederAlreadyAdded => 2,
        Error::FeederNotFound => 3,
        Error::NotAFeeder => 4,
        Error::InvalidPrice => 5,
        Error::ContractPaused => 6,
        Error::InvalidStaleness => 7,
        Error::TooManyFeeders => 8,
        Error::Unauthorized => 9,
        Error::InvalidMinReports => 10,
    }
}

impl Error {
    /// The number under which this error is reported to callers.
    pub fn code(&self) -> (c: u32)
        ensures
            c == error_number(*self),
    {
        match self {
            Error::AlreadyInitialized => 1,
            Error::FeederAlreadyAdded => 2,
            Error::FeederNotFound => 3,
            Error::NotAFeeder => 4,
            Error::InvalidPrice => 5,
            Error::ContractPaused => 6,
            Error::InvalidStaleness => 7,
            Error::TooManyFeeders => 8,
            Error::Unauthorized => 9,
            Error::InvalidMinReports => 10,
        }
    }
}

/// The stored state of a price oracle, field by field, as it is persisted
/// between calls.
pub struct PriceOracleParts {
    pub admin: Option<AccountId>,
    pub max_staleness: u64,
    pub min_reports: u32,
}

/// The stored state of one price-oracle deployment.
pub struct PriceOracle {
    admin: Option<AccountId>,
    max_staleness: u64,
    min_reports: u32,
}

impl PriceOracle {
    /// Whether `initialize` has succeeded on this deployment.
    pub closed spec fn is_initialized(&self) -> bool {
        self.admin is Some
    }

    /// The admin address.
    pub closed spec fn admin_id(&self) -> AccountId {
        self.admin.unwrap()
    }

    /// How old, in seconds, a report may be and still count.
    pub closed spec fn max_staleness_value(&self) -> u64 {
        self.max_staleness
    }

    /// How many fresh reports an aggregate needs.
    pub closed spec fn min_reports_value(&self) -> u32 {
        self.min_reports
    }

    /// Whether `initialize` has succeeded on this deployment.
    pub fn initialized(&self) -> (r: bool)
        ensures
            r == self.is_initialized(),
    {
        self.admin.is_some()
    }

    /// A deployment on which `initialize` has not yet run.
    pub fn new() -> (r: PriceOracle)
        ensures
            !r.is_initialized(),
    {
        PriceOracle { admin: None, max_staleness: 0, min_reports: 0 }
    }

    /// Records the admin, once, with the default freshness window (one
    /// hour) and quorum (one report). The caller has already authenticated
    /// `admin`.
    pub fn initialize(&mut self, admin: AccountId) -> (r: Result<(), Error>)
        ensures
            r is Err <==> old(self).is_initialized(),
            r is Err ==> r == Err::<(), Error>(Error::AlreadyInitialized) && *final(self) == *old(self),
            r is Ok ==> {
                &&& final(self).is_initialized()
                &&& final(self).admin_id() == admin
                &&& final(self).max_staleness_value() == DEFAULT_MAX_STALENESS
                &&& final(self).min_reports_value() == DEFAULT_MIN_REPORTS
            },
    {
        if self.admin.is_some() {
            return Err(Error::AlreadyInitialized);
        }
        self.admin = Some(admin);
        self.max_staleness = DEFAULT_MAX_STALENESS;
        self.min_reports = DEFAULT_MIN_REPORTS;
        Ok(())
    }

    /// Restores an oracle from its persisted fields.
    pub fn from_parts(parts: PriceOracleParts) -> (r: PriceOracle)
        ensures
            r.is_initialized() == (parts.admin is Some),
            r.admin_id() == parts.admin.unwrap(),
            r.max_staleness_value() == parts.max_staleness,
            r.min_reports_value() == parts.min_reports,
    {
        PriceOracle { admin: parts.admin, max_staleness: parts.max_staleness, min_reports: parts.min_reports }
    }

    /// The persisted fields of this oracle.
    pub fn into_parts(self) -> (r: PriceOracleParts)
        ensures
            (r.admin is Some) == self.is_initialized(),
            self.is_initialized() ==> r.admin == Some(self.admin_id()),
            r.max_staleness == self.max_staleness_value(),
            r.min_reports == self.min_reports_value(),
    {
        PriceOracleParts { admin: self.admin, max_staleness: self.max_staleness, min_reports: self.min_reports }
    }

    /// The admin address.
    pub fn get_admin(&self) -> (r: AccountId)
        requires
            self.is_initialized(),
        ensures
            r == self.admin_id(),
    {
        self.admin.unwrap()
    }

    /// How old, in seconds, a report may be and still count.
    pub fn get_max_staleness(&self) -> (r: u64)
        requires
            self.is_initialized(),
        ensures
            r == self.max_staleness_value(),
    {
        self.max_staleness
    }

    /// How many fresh reports an aggregate needs.
    pub fn get_min_reports(&self) -> (r: u32)
        requires
            self.is_initialized(),
        ensures
            r == self.min_reports_value(),
    {
        self.min_reports
    }
}

} // verus!
