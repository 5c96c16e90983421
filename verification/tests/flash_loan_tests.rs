use margin_ledger::compose::ComposedIx;
use margin_ledger::compose::ProgIx;
use margin_ledger::compose::QuoteResponse;
use margin_ledger::compose::Sanctum;
use margin_ledger::fixnum::FixedVal;
use margin_ledger::fixnum::SCALE;
use margin_ledger::flash_loan::flash_loan_begin;
use margin_ledger::flash_loan::flash_loan_end_commit;
use margin_ledger::flash_loan::flash_loan_end_settle;
use margin_ledger::flash_loan::health_decision;
use margin_ledger::flash_loan::validate_bracket;
use margin_ledger::flash_loan::BracketTag;
use margin_ledger::flash_loan::FlashLoanOutcome;
use margin_ledger::flash_loan::FlashLoanType;
use margin_ledger::ledger::token_register;
use margin_ledger::ledger::Bank;
use margin_ledger::ledger::InterestRateParams;
use margin_ledger::position::Position;

fn fx(raw: i128) -> FixedVal {
    FixedVal { raw }
}

fn test_bank(origination_fee_raw: i128) -> Bank {
    let params = InterestRateParams {
        util0: fx(SCALE / 2),
        rate0: fx(SCALE / 8),
        util1: fx(3 * (SCALE / 4)),
        rate1: fx(SCALE / 4),
        max_rate: fx(SCALE / 2),
    };
    let (mut bank, _info) = token_register(
        11, 0, "TEST", params, fx(0), fx(origination_fee_raw), fx(SCALE), fx(SCALE), fx(SCALE),
        fx(SCALE), fx(0), fx(0), 21, 31, 41, 51, 61, 0, 6,
    )
    .unwrap();
    bank.deposit_index = fx(SCALE);
    bank.borrow_index = fx(SCALE);
    bank
}

fn zero_position() -> Position {
    Position { token_index: 0, active: false, indexed_balance: fx(0) }
}

#[test]
fn begin_records_amounts_and_balances() {
    let record = flash_loan_begin(&vec![100, 0], &vec![7, 8]);
    assert_eq!(record.amounts, vec![100, 0]);
    assert_eq!(record.pre_balances, vec![7, 8]);
}

#[test]
fn round_trip_changes_nothing() {
    // Begin([100, 0]) and exactly 100 returned: a fee-free no-op.
    let banks = vec![test_bank(SCALE / 4), test_bank(SCALE / 4)];
    let positions = vec![zero_position(), zero_position()];
    let record = flash_loan_begin(&vec![100, 0], &vec![0, 0]);
    let (new_banks, new_positions) =
        flash_loan_end_settle(&banks, &positions, &record, &vec![100, 0]).unwrap();
    for i in 0..2 {
        assert_eq!(new_banks[i].indexed_total_deposits.raw, 0);
        assert_eq!(new_banks[i].indexed_total_borrows.raw, 0);
        assert_eq!(new_positions[i].indexed_balance.raw, 0);
        assert!(!new_positions[i].active);
    }
}

#[test]
fn shortfall_becomes_inflated_borrow() {
    // Begin([100, 0]), 80 returned: the missing 20 becomes a borrow of
    // 20 * (1 + 1/4) = 25 native units.
    let banks = vec![test_bank(SCALE / 4), test_bank(SCALE / 4)];
    let positions = vec![zero_position(), zero_position()];
    let record = flash_loan_begin(&vec![100, 0], &vec![0, 0]);
    let (new_banks, new_positions) =
        flash_loan_end_settle(&banks, &positions, &record, &vec![80, 0]).unwrap();
    assert_eq!(new_positions[0].indexed_balance.raw, -25 * SCALE);
    assert!(new_positions[0].active);
    assert_eq!(new_banks[0].indexed_total_borrows.raw, 25 * SCALE);
    assert_eq!(new_banks[0].indexed_total_deposits.raw, 0);
    // The untouched second asset stays untouched.
    assert_eq!(new_positions[1].indexed_balance.raw, 0);
    assert_eq!(new_banks[1].indexed_total_borrows.raw, 0);
}

#[test]
fn surplus_becomes_deposit() {
    let banks = vec![test_bank(SCALE / 4)];
    let positions = vec![zero_position()];
    let record = flash_loan_begin(&vec![100], &vec![0]);
    let (new_banks, new_positions) =
        flash_loan_end_settle(&banks, &positions, &record, &vec![130]).unwrap();
    // The surplus of 30 is deposited without any fee.
    assert_eq!(new_positions[0].indexed_balance.raw, 30 * SCALE);
    assert_eq!(new_banks[0].indexed_total_deposits.raw, 30 * SCALE);
}

#[test]
fn health_rule_per_kind() {
    // Swap tolerates a dip no worse than before the bracket.
    assert!(health_decision(FlashLoanType::Swap, fx(-2 * SCALE), fx(-SCALE)));
    assert!(health_decision(FlashLoanType::Swap, fx(-SCALE), fx(-SCALE)));
    assert!(!health_decision(FlashLoanType::Swap, fx(-SCALE), fx(-2 * SCALE)));
    // Any other kind requires outright non-negative health.
    assert!(!health_decision(FlashLoanType::Other, fx(-2 * SCALE), fx(-SCALE)));
    assert!(health_decision(FlashLoanType::Other, fx(-SCALE), fx(0)));
    assert!(health_decision(FlashLoanType::Swap, fx(0), fx(SCALE)));
}

#[test]
fn commit_settles_or_rejects() {
    let banks = vec![test_bank(0)];
    let positions = vec![zero_position()];
    match flash_loan_end_commit(banks, positions, FlashLoanType::Swap, fx(0), fx(SCALE)) {
        FlashLoanOutcome::Settled { banks, positions } => {
            assert_eq!(banks.len(), 1);
            assert_eq!(positions.len(), 1);
        }
        FlashLoanOutcome::Rejected => panic!("healthy settlement must commit"),
    }
    let banks = vec![test_bank(0)];
    let positions = vec![zero_position()];
    match flash_loan_end_commit(banks, positions, FlashLoanType::Other, fx(SCALE), fx(-SCALE)) {
        FlashLoanOutcome::Settled { .. } => panic!("unhealthy settlement must reject"),
        FlashLoanOutcome::Rejected => {}
    }
}

#[test]
fn bracket_guard_accepts_single_matched_pair() {
    let ixs = vec![
        BracketTag::Unrelated,
        BracketTag::Begin { num_loans: 2 },
        BracketTag::Unrelated,
        BracketTag::End { num_loans: 2 },
        BracketTag::Unrelated,
    ];
    assert!(validate_bracket(&ixs));
}

#[test]
fn bracket_guard_rejects_malformed_transactions() {
    // Mismatched loan counts.
    assert!(!validate_bracket(&vec![
        BracketTag::Begin { num_loans: 2 },
        BracketTag::End { num_loans: 3 },
    ]));
    // End before begin.
    assert!(!validate_bracket(&vec![
        BracketTag::End { num_loans: 2 },
        BracketTag::Begin { num_loans: 2 },
    ]));
    // A second interleaved bracket.
    assert!(!validate_bracket(&vec![
        BracketTag::Begin { num_loans: 2 },
        BracketTag::Begin { num_loans: 2 },
        BracketTag::End { num_loans: 2 },
    ]));
    assert!(!validate_bracket(&vec![
        BracketTag::Begin { num_loans: 2 },
        BracketTag::End { num_loans: 2 },
        BracketTag::End { num_loans: 2 },
    ]));
    // No bracket at all.
    assert!(!validate_bracket(&vec![BracketTag::Unrelated]));
    assert!(!validate_bracket(&vec![]));
}

#[test]
fn composed_transaction_passes_bracket_guard() {
    // The composer's output, seen through the guard's eyes, is exactly one
    // matched begin/end pair.
    let composer = Sanctum {
        owner: 900,
        account: 901,
        group: 902,
        ata_program: 1,
        token_program: 2,
        compute_budget_program: 3,
        system_program: 4,
        sync_native_data: vec![17],
        registered_lookup_tables: vec![],
        timeout_millis: 15_000,
    };
    let quote = QuoteResponse {
        in_amount: Some("100".to_string()),
        out_amount: "1000".to_string(),
        fee_amount: "5".to_string(),
        fee_mint: "77".to_string(),
        fee_pct: "0.1".to_string(),
        swap_src: "spool".to_string(),
    };
    let provider_ixs = vec![
        ProgIx { program: 1, data: vec![] },
        ProgIx { program: 9, data: vec![] },
        ProgIx { program: 3, data: vec![] },
    ];
    let tb = composer
        .prepare_swap_transaction(&quote, &provider_ixs, &vec![], 7)
        .unwrap();
    let tags: Vec<BracketTag> = tb
        .instructions
        .iter()
        .map(|ix| match ix {
            ComposedIx::FlashLoanBegin { loan_amounts } => {
                BracketTag::Begin { num_loans: loan_amounts.len() }
            }
            ComposedIx::FlashLoanEnd { num_loans, .. } => {
                BracketTag::End { num_loans: *num_loans as usize }
            }
            _ => BracketTag::Unrelated,
        })
        .collect();
    assert!(validate_bracket(&tags));
}
