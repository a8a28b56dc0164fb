use zenith::ids::AccountId;
use zenith::price_oracle::{Error, PriceOracle, DEFAULT_MAX_STALENESS, DEFAULT_MIN_REPORTS};

fn account(n: u64) -> AccountId {
    AccountId::from_words([n, 0, 0, 0, 0, 0, 0])
}

#[test]
fn initialize_sets_admin() {
    let admin = account(1);
    let mut oracle = PriceOracle::new();
    oracle.initialize(admin).unwrap();
    assert_eq!(oracle.get_admin(), admin);
    assert_eq!(oracle.get_max_staleness(), 3600);
    assert_eq!(oracle.get_min_reports(), 1);
    assert_eq!(DEFAULT_MAX_STALENESS, 3600);
    assert_eq!(DEFAULT_MIN_REPORTS, 1);
}

#[test]
fn oracle_initialize_twice_panics() {
    let admin = account(1);
    let mut oracle = PriceOracle::new();
    oracle.initialize(admin).unwrap();
    assert_eq!(oracle.initialize(admin), Err(Error::AlreadyInitialized));
    assert_eq!(Error::AlreadyInitialized.code(), 1);
    assert_eq!(oracle.get_admin(), admin);
}

#[test]
fn oracle_error_numbers_follow_the_documented_table() {
    let all = [
        Error::AlreadyInitialized,
        Error::FeederAlreadyAdded,
        Error::FeederNotFound,
        Error::NotAFeeder,
        Error::InvalidPrice,
        Error::ContractPaused,
        Error::InvalidStaleness,
        Error::TooManyFeeders,
        Error::Unauthorized,
        Error::InvalidMinReports,
    ];
    for (i, e) in all.iter().enumerate() {
        assert_eq!(e.code(), i as u32 + 1);
    }
}
