use margin_ledger::fixnum::FixedVal;
use margin_ledger::fixnum::SCALE;
use margin_ledger::flash_loan::flash_loan_begin;
use margin_ledger::flash_loan::flash_loan_end_commit;
use margin_ledger::flash_loan::flash_loan_end_settle;
use margin_ledger::flash_loan::FlashLoanOutcome;
use margin_ledger::flash_loan::FlashLoanType;
use margin_ledger::ledger::token_register;
use margin_ledger::ledger::Bank;
use margin_ledger::ledger::InterestRateParams;
use margin_ledger::mint_info::MintInfo;
use margin_ledger::position::Account;
use margin_ledger::position::MAX_TOKEN_POSITIONS;
use margin_ledger::MarginError;

fn fx(raw: i128) -> FixedVal {
    FixedVal { raw }
}

#[test]
fn ensure_token_position_claims_and_reuses_slots() {
    let mut account = Account::new(42);
    let i = account.ensure_token_position(5).unwrap();
    let j = account.ensure_token_position(5).unwrap();
    assert_eq!(i, j);
    let k = account.ensure_token_position(6).unwrap();
    assert_ne!(i, k);
    assert_eq!(account.num_active(), 2);
}

#[test]
fn ensure_token_position_fails_when_full() {
    let mut account = Account::new(42);
    for t in 0..MAX_TOKEN_POSITIONS as u16 {
        account.ensure_token_position(t).unwrap();
    }
    assert_eq!(account.num_active(), MAX_TOKEN_POSITIONS);
    let r = account.ensure_token_position(99);
    assert_eq!(r.unwrap_err(), MarginError::AccountFull);
    // An already-claimed asset still resolves.
    assert!(account.ensure_token_position(3).is_ok());
}

#[test]
fn mint_info_bank_prefix() {
    let info = MintInfo {
        group: 1,
        mint: 2,
        banks: [5, 6, 0, 0, 0, 0],
        vaults: [7, 8, 0, 0, 0, 0],
        oracle: 9,
        address_lookup_table: 10,
        token_index: 3,
        address_lookup_table_bank_index: 0,
        address_lookup_table_oracle_index: 1,
        reserved: [0; 4],
    };
    assert_eq!(info.first_bank(), 5);
    assert_eq!(info.first_vault(), 7);
    assert_eq!(info.num_banks(), 2);
    assert_eq!(info.banks(), vec![5, 6]);
    assert!(info.verify_banks_ais(&vec![5, 6]).is_ok());
    assert_eq!(info.verify_banks_ais(&vec![5]).unwrap_err(), MarginError::InvalidBankList);
    assert_eq!(info.verify_banks_ais(&vec![5, 6, 0]).unwrap_err(), MarginError::InvalidBankList);
    assert_eq!(info.verify_banks_ais(&vec![6, 5]).unwrap_err(), MarginError::InvalidBankList);
}

fn margin_test_bank() -> Bank {
    let params = InterestRateParams {
        util0: fx(SCALE / 2),
        rate0: fx(SCALE / 8),
        util1: fx(3 * (SCALE / 4)),
        rate1: fx(SCALE / 4),
        max_rate: fx(SCALE / 2),
    };
    let (mut bank, _info) = token_register(
        11, 0, "MINT0", params, fx(0), fx(0), fx(SCALE), fx(SCALE), fx(SCALE), fx(SCALE), fx(0),
        fx(SCALE / 100), 21, 31, 41, 51, 61, 0, 6,
    )
    .unwrap();
    bank.deposit_index = fx(SCALE);
    bank.borrow_index = fx(SCALE);
    bank
}

#[test]
fn test_margin_trade() {
    // Deposit funds, run a flash-loan margin trade that keeps part of the
    // loan, then settle the position back to zero and activate it again.
    let mut bank = margin_test_bank();
    let mut account = Account::new(42);
    let slot = account.ensure_token_position(0).unwrap();

    // Deposit 100 native units.
    let deposit_amount_initial: u64 = 100;
    let mut pos = account.positions[slot];
    bank.apply_delta(&mut pos, FixedVal::from_u64(deposit_amount_initial)).unwrap();
    account.positions[slot] = pos;
    assert_eq!(bank.indexed_total_deposits.raw, 100 * SCALE);
    assert_eq!(pos.native(&bank).unwrap().raw, 100 * SCALE);
    assert_eq!(account.num_active(), 1);

    // Margin trade: borrow 2 through the envelope, return 1.
    let withdraw_amount: u64 = 2;
    let deposit_amount: u64 = 1;
    let record = flash_loan_begin(&vec![withdraw_amount], &vec![0]);
    let (new_banks, new_positions) =
        flash_loan_end_settle(&vec![bank], &vec![pos], &record, &vec![deposit_amount]).unwrap();
    match flash_loan_end_commit(new_banks, new_positions, FlashLoanType::Swap, fx(0), fx(SCALE)) {
        FlashLoanOutcome::Settled { banks, positions } => {
            bank = banks[0];
            pos = positions[0];
        }
        FlashLoanOutcome::Rejected => panic!("healthy trade must settle"),
    }
    account.positions[slot] = pos;
    assert_eq!(pos.native(&bank).unwrap().raw, 99 * SCALE);
    assert_eq!(bank.indexed_total_deposits.raw, 99 * SCALE);
    assert_eq!(account.num_active(), 1);

    // Bringing the balance to zero deactivates the position.
    let record = flash_loan_begin(&vec![99], &vec![0]);
    let (new_banks, new_positions) =
        flash_loan_end_settle(&vec![bank], &vec![pos], &record, &vec![0]).unwrap();
    match flash_loan_end_commit(new_banks, new_positions, FlashLoanType::Swap, fx(0), fx(SCALE)) {
        FlashLoanOutcome::Settled { banks, positions } => {
            bank = banks[0];
            pos = positions[0];
        }
        FlashLoanOutcome::Rejected => panic!("exact close-out must settle"),
    }
    account.positions[slot] = pos;
    assert_eq!(pos.indexed_balance.raw, 0);
    assert!(!pos.active);
    assert_eq!(account.num_active(), 0);

    // Activating the position again via a surplus-returning trade.
    let record = flash_loan_begin(&vec![0], &vec![0]);
    let (new_banks, new_positions) =
        flash_loan_end_settle(&vec![bank], &vec![pos], &record, &vec![1]).unwrap();
    match flash_loan_end_commit(new_banks, new_positions, FlashLoanType::Swap, fx(0), fx(SCALE)) {
        FlashLoanOutcome::Settled { banks, positions } => {
            bank = banks[0];
            pos = positions[0];
        }
        FlashLoanOutcome::Rejected => panic!("surplus trade must settle"),
    }
    account.positions[slot] = pos;
    assert!(pos.active);
    assert_eq!(account.num_active(), 1);
    assert_eq!(bank.indexed_total_deposits.raw, SCALE);
}
