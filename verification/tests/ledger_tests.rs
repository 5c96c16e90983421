use margin_ledger::fixnum::FixedVal;
use margin_ledger::fixnum::SCALE;
use margin_ledger::ledger::token_register;
use margin_ledger::ledger::Bank;
use margin_ledger::ledger::InterestRateParams;
use margin_ledger::ledger::INDEX_START_RAW;
use margin_ledger::ledger::YEAR_SECS;
use margin_ledger::position::Position;

fn fx(raw: i128) -> FixedVal {
    FixedVal { raw }
}

fn test_bank(index_raw: i128, origination_fee_raw: i128, dust_raw: i128) -> Bank {
    let params = InterestRateParams {
        util0: fx(SCALE / 2),
        rate0: fx(SCALE / 8),
        util1: fx(3 * (SCALE / 4)),
        rate1: fx(SCALE / 4),
        max_rate: fx(SCALE / 2),
    };
    let (mut bank, _info) = token_register(
        11, 0, "TEST", params, fx(0), fx(origination_fee_raw), fx(SCALE), fx(SCALE), fx(SCALE),
        fx(SCALE), fx(0), fx(dust_raw), 21, 31, 41, 51, 61, 0, 6,
    )
    .unwrap();
    bank.deposit_index = fx(index_raw);
    bank.borrow_index = fx(index_raw);
    bank
}

#[test]
fn register_sets_fresh_record() {
    let params = InterestRateParams {
        util0: fx(SCALE / 2),
        rate0: fx(SCALE / 8),
        util1: fx(3 * (SCALE / 4)),
        rate1: fx(SCALE / 4),
        max_rate: fx(SCALE / 2),
    };
    let (bank, info) = token_register(
        11, 7, "SOL", params, fx(0), fx(0), fx(SCALE), fx(SCALE), fx(SCALE), fx(SCALE), fx(0),
        fx(0), 21, 31, 41, 51, 61, 1234, 9,
    )
    .unwrap();
    assert_eq!(bank.deposit_index.raw, INDEX_START_RAW);
    assert_eq!(bank.borrow_index.raw, INDEX_START_RAW);
    assert_eq!(bank.indexed_total_deposits.raw, 0);
    assert_eq!(bank.indexed_total_borrows.raw, 0);
    assert_eq!(bank.last_updated, 1234);
    assert_eq!(bank.token_index, 7);
    assert_eq!(&bank.name[..3], b"SOL");
    assert_eq!(bank.name[3..], [0u8; 13]);
    assert_eq!(info.banks[0], 31);
    assert_eq!(info.banks[1], 0);
    assert_eq!(info.token_index, 7);
    assert_eq!(info.address_lookup_table_bank_index, 0);
    assert_eq!(info.address_lookup_table_oracle_index, 1);
}

#[test]
fn register_rejects_long_name() {
    let params = InterestRateParams {
        util0: fx(SCALE / 2),
        rate0: fx(SCALE / 8),
        util1: fx(3 * (SCALE / 4)),
        rate1: fx(SCALE / 4),
        max_rate: fx(SCALE / 2),
    };
    let r = token_register(
        11, 7, "A-NAME-THAT-IS-TOO-LONG", params, fx(0), fx(0), fx(SCALE), fx(SCALE), fx(SCALE),
        fx(SCALE), fx(0), fx(0), 21, 31, 41, 51, 61, 0, 9,
    );
    assert_eq!(r.unwrap_err(), margin_ledger::MarginError::NameTooLong);
}

#[test]
fn accrue_grows_borrow_index_only_when_unused() {
    // No deposits and no borrows: utilization is zero, so depositors earn
    // nothing while would-be borrowers face the base rate.
    let mut bank = test_bank(INDEX_START_RAW, 0, 0);
    let r = bank.accrue(YEAR_SECS as i64);
    assert!(r.is_ok());
    // rate0 = SCALE/8 over exactly one year: growth is exact.
    let expected_borrow = 1_000_000i128 * (SCALE + SCALE / 8);
    assert_eq!(bank.borrow_index.raw, expected_borrow);
    assert_eq!(bank.deposit_index.raw, INDEX_START_RAW);
    assert_eq!(bank.collected_fees_native.raw, 0);
    assert_eq!(bank.last_updated, YEAR_SECS as i64);
}

#[test]
fn accrue_never_decreases_indices() {
    let mut bank = test_bank(INDEX_START_RAW, 0, 0);
    bank.indexed_total_deposits = fx(1000 * SCALE);
    bank.indexed_total_borrows = fx(700 * SCALE);
    bank.loan_fee_rate = fx(SCALE / 10);
    let di0 = bank.deposit_index.raw;
    let bi0 = bank.borrow_index.raw;
    for step in 1..=5i64 {
        let r = bank.accrue(step * 86_400);
        assert!(r.is_ok());
        assert!(bank.deposit_index.raw >= di0);
        assert!(bank.borrow_index.raw >= bi0);
    }
    // With real utilization the borrow index strictly grows.
    assert!(bank.borrow_index.raw > bi0);
}

#[test]
fn accrue_zero_elapsed_changes_nothing() {
    let mut bank = test_bank(INDEX_START_RAW, 0, 0);
    bank.indexed_total_deposits = fx(1000 * SCALE);
    bank.indexed_total_borrows = fx(700 * SCALE);
    let di0 = bank.deposit_index.raw;
    let bi0 = bank.borrow_index.raw;
    assert!(bank.accrue(0).is_ok());
    assert_eq!(bank.deposit_index.raw, di0);
    assert_eq!(bank.borrow_index.raw, bi0);
}

#[test]
fn apply_delta_deposit_withdraw_lifecycle() {
    let mut bank = test_bank(SCALE, 0, 0);
    let mut pos = Position { token_index: 0, active: false, indexed_balance: fx(0) };
    // Deposit 100 native units at index 1.0: exact.
    let active = bank.apply_delta(&mut pos, FixedVal::from_u64(100)).unwrap();
    assert!(active);
    assert_eq!(pos.indexed_balance.raw, 100 * SCALE);
    assert_eq!(bank.indexed_total_deposits.raw, 100 * SCALE);
    assert_eq!(bank.indexed_total_borrows.raw, 0);
    // Withdrawing everything crosses to zero and deactivates.
    let active = bank.apply_delta(&mut pos, fx(-100 * SCALE)).unwrap();
    assert!(!active);
    assert!(!pos.active);
    assert_eq!(pos.indexed_balance.raw, 0);
    assert_eq!(bank.indexed_total_deposits.raw, 0);
    // A fresh delta reactivates the position.
    let active = bank.apply_delta(&mut pos, FixedVal::from_u64(50)).unwrap();
    assert!(active);
    assert!(pos.active);
}

#[test]
fn apply_delta_crossing_rebinds_to_borrow_index() {
    let mut bank = test_bank(SCALE, 0, 0);
    let mut pos = Position { token_index: 0, active: false, indexed_balance: fx(0) };
    bank.apply_delta(&mut pos, FixedVal::from_u64(100)).unwrap();
    // Withdraw 150: the balance crosses zero into a borrow.
    let active = bank.apply_delta(&mut pos, fx(-150 * SCALE)).unwrap();
    assert!(active);
    assert_eq!(pos.indexed_balance.raw, -50 * SCALE);
    assert_eq!(bank.indexed_total_deposits.raw, 0);
    assert_eq!(bank.indexed_total_borrows.raw, 50 * SCALE);
    // Native value of a borrow is negative: signs agree.
    let native = pos.native(&bank).unwrap();
    assert!(native.raw < 0);
    assert_eq!(native.raw, -50 * SCALE);
}

#[test]
fn apply_delta_rounds_toward_ledger() {
    // Index 3.0: a deposit of 100 native yields floor(100/3) in index
    // units, while a borrow of 100 native yields one raw unit more.
    let mut bank = test_bank(3 * SCALE, 0, 0);
    let mut dep = Position { token_index: 0, active: false, indexed_balance: fx(0) };
    bank.apply_delta(&mut dep, FixedVal::from_u64(100)).unwrap();
    let expected_floor = 100 * SCALE / 3;
    assert_eq!(dep.indexed_balance.raw, expected_floor);
    let mut bor = Position { token_index: 0, active: false, indexed_balance: fx(0) };
    bank.apply_delta(&mut bor, fx(-100 * SCALE)).unwrap();
    assert_eq!(bor.indexed_balance.raw, -expected_floor - 1);
    // Converting the borrow back to native owes a hair more than 100.
    let native = bor.native(&bank).unwrap();
    assert!(native.raw <= -100 * SCALE);
}

#[test]
fn apply_delta_dust_threshold_governs_activation() {
    // Dust threshold of one whole unit: a residue below it deactivates.
    let mut bank = test_bank(SCALE, 0, SCALE);
    let mut pos = Position { token_index: 0, active: false, indexed_balance: fx(0) };
    let active = bank.apply_delta(&mut pos, fx(SCALE / 2)).unwrap();
    assert!(!active);
    // The stored numeric history is kept even while inactive.
    assert_eq!(pos.indexed_balance.raw, SCALE / 2);
    let active = bank.apply_delta(&mut pos, fx(SCALE)).unwrap();
    assert!(active);
}

#[test]
fn record_layouts_are_fixed() {
    assert_eq!(margin_ledger::ledger::BANK_RECORD_BYTES, 352);
    assert_eq!(margin_ledger::mint_info::MINT_INFO_RECORD_BYTES, 136);
}
