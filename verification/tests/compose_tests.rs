use margin_ledger::codec::decode_provider_blob;
use margin_ledger::compose::min_output;
use margin_ledger::compose::ComposedIx;
use margin_ledger::compose::ProgIx;
use margin_ledger::compose::QuoteResponse;
use margin_ledger::compose::Sanctum;
use margin_ledger::flash_loan::FlashLoanType;
use margin_ledger::numstr::parse_u64_dec;
use margin_ledger::numstr::u64_to_dec;
use margin_ledger::position::Account;
use margin_ledger::MarginError;

fn test_composer() -> Sanctum {
    Sanctum {
        owner: 900,
        account: 901,
        group: 902,
        ata_program: 1,
        token_program: 2,
        compute_budget_program: 3,
        system_program: 4,
        sync_native_data: vec![17],
        registered_lookup_tables: vec![70, 71],
        timeout_millis: 15_000,
    }
}

fn ix(program: u64, data: Vec<u8>) -> ProgIx {
    ProgIx { program, data }
}

fn quote_with(in_amount: Option<&str>, out_amount: &str) -> QuoteResponse {
    QuoteResponse {
        in_amount: in_amount.map(|s| s.to_string()),
        out_amount: out_amount.to_string(),
        fee_amount: "5".to_string(),
        fee_mint: "77".to_string(),
        fee_pct: "0.1".to_string(),
        swap_src: "spool".to_string(),
    }
}

#[test]
fn rejects_same_asset_before_anything_else() {
    let composer = test_composer();
    let mut account = Account::new(900);
    let r = composer.quote_request(&mut account, 7, 7, 1000, 0, 1);
    assert_eq!(r.unwrap_err(), MarginError::DistinctAssetViolation);
    assert_eq!(account.num_active(), 0);
}

#[test]
fn quote_request_ensures_positions_and_builds_query() {
    let composer = test_composer();
    let mut account = Account::new(900);
    let q = composer.quote_request(&mut account, 7, 8, 1000, 0, 1).unwrap();
    assert_eq!(q.input, "7");
    assert_eq!(q.output_lst_mint, "8");
    assert_eq!(q.amount, "1000");
    assert_eq!(account.num_active(), 2);
}

#[test]
fn quote_request_fails_when_account_is_full() {
    let composer = test_composer();
    let mut account = Account::new(900);
    for t in 0..16u16 {
        account.ensure_token_position(t).unwrap();
    }
    let r = composer.quote_request(&mut account, 7, 8, 1000, 20, 21);
    assert_eq!(r.unwrap_err(), MarginError::AccountFull);
}

#[test]
fn slippage_floor_rounds_up() {
    assert_eq!(min_output(1000, 50), 995);
    assert_eq!(min_output(1000, 0), 1000);
    assert_eq!(min_output(1000, 10000), 0);
    assert_eq!(min_output(1000, 20000), 0);
    // 999 * 0.9950 = 994.005 rounds up to 995 in the protocol's favor.
    assert_eq!(min_output(999, 50), 995);
    assert_eq!(min_output(0, 50), 0);
}

#[test]
fn build_swap_request_fills_exact_fields() {
    let composer = test_composer();
    let quote = quote_with(Some("100"), "1000");
    let req = composer.build_swap_request(&quote, 7, 8, 50).unwrap();
    assert_eq!(req.amount, "100");
    assert_eq!(req.quoted_amount, "995");
    assert_eq!(req.input, "7");
    assert_eq!(req.mode, "ExactIn");
    assert_eq!(req.output_lst_mint, "8");
    assert_eq!(req.signer, "900");
    assert_eq!(req.swap_src, "spool");
}

#[test]
fn build_swap_request_requires_amounts() {
    let composer = test_composer();
    let r = composer.build_swap_request(&quote_with(None, "1000"), 7, 8, 50);
    assert_eq!(r.unwrap_err(), MarginError::ProviderMisuse);
    let r = composer.build_swap_request(&quote_with(Some("100"), "12x"), 7, 8, 50);
    assert_eq!(r.unwrap_err(), MarginError::ArithmeticOverflow);
}

#[test]
fn strip_removes_wrapping_only() {
    let composer = test_composer();
    let ixs = vec![
        ix(4, vec![9]),   // system-program transfer: stripped
        ix(2, vec![17]),  // sync-native payload: stripped
        ix(2, vec![18]),  // other token instruction: kept
        ix(9, vec![1]),   // action: kept
    ];
    let kept = composer.strip_wrapped_native(&ixs);
    assert_eq!(kept, vec![ix(2, vec![18]), ix(9, vec![1])]);
}

#[test]
fn partition_splits_setup_action_setup() {
    let composer = test_composer();
    let ixs = vec![ix(1, vec![]), ix(9, vec![]), ix(3, vec![])];
    let (b, e) = composer.partition_setup_action(&ixs).unwrap();
    assert_eq!((b, e), (1, 2));
    // A longer action block with interior setup-tagged instructions keeps
    // them inside the block.
    let ixs = vec![ix(1, vec![]), ix(9, vec![]), ix(2, vec![]), ix(8, vec![]), ix(3, vec![])];
    let (b, e) = composer.partition_setup_action(&ixs).unwrap();
    assert_eq!((b, e), (1, 4));
}

#[test]
fn partition_rejects_all_setup_streams() {
    let composer = test_composer();
    let r = composer.partition_setup_action(&vec![ix(1, vec![]), ix(2, vec![]), ix(3, vec![])]);
    assert_eq!(r.unwrap_err(), MarginError::ProviderMisuse);
    let r = composer.partition_setup_action(&vec![]);
    assert_eq!(r.unwrap_err(), MarginError::ProviderMisuse);
}

#[test]
fn prepare_splices_envelope_around_action_block() {
    let composer = test_composer();
    let quote = quote_with(Some("100"), "1000");
    let provider_ixs = vec![ix(1, vec![5]), ix(9, vec![6]), ix(3, vec![7])];
    let tb = composer
        .prepare_swap_transaction(&quote, &provider_ixs, &vec![80, 81], 7)
        .unwrap();
    let expected = vec![
        ComposedIx::Provider(ix(1, vec![5])),
        ComposedIx::EnsureFundingAccount { owner: 900, mint: 7 },
        ComposedIx::FlashLoanBegin { loan_amounts: vec![100, 0] },
        ComposedIx::Provider(ix(9, vec![6])),
        ComposedIx::FlashLoanEnd { num_loans: 2, flash_loan_type: FlashLoanType::Swap },
        ComposedIx::Provider(ix(3, vec![7])),
    ];
    assert_eq!(tb.instructions, expected);
    assert_eq!(tb.address_lookup_tables, vec![70, 71, 80, 81]);
    assert_eq!(tb.payer, 900);
    assert_eq!(tb.signers, vec![900]);
}

#[test]
fn prepare_without_in_amount_lends_nothing() {
    let composer = test_composer();
    let quote = quote_with(None, "1000");
    let provider_ixs = vec![ix(9, vec![6])];
    let tb = composer.prepare_swap_transaction(&quote, &provider_ixs, &vec![], 7).unwrap();
    assert_eq!(
        tb.instructions[1],
        ComposedIx::FlashLoanBegin { loan_amounts: vec![0, 0] }
    );
}

#[test]
fn prepare_surfaces_provider_and_numeric_errors() {
    let composer = test_composer();
    // Only setup instructions survive: provider misuse.
    let quote = quote_with(Some("100"), "1000");
    let r = composer.prepare_swap_transaction(&quote, &vec![ix(1, vec![])], &vec![], 7);
    assert_eq!(r.unwrap_err(), MarginError::ProviderMisuse);
    // A malformed input amount aborts composition.
    let quote = quote_with(Some("1oo"), "1000");
    let r = composer.prepare_swap_transaction(&quote, &vec![ix(9, vec![])], &vec![], 7);
    assert_eq!(r.unwrap_err(), MarginError::ArithmeticOverflow);
}

#[test]
fn decimal_strings_round_trip() {
    assert_eq!(parse_u64_dec("0").unwrap(), 0);
    assert_eq!(parse_u64_dec("12345").unwrap(), 12345);
    assert_eq!(parse_u64_dec("18446744073709551615").unwrap(), u64::MAX);
    assert_eq!(parse_u64_dec("18446744073709551616").unwrap_err(), MarginError::ArithmeticOverflow);
    assert_eq!(parse_u64_dec("").unwrap_err(), MarginError::ArithmeticOverflow);
    assert_eq!(parse_u64_dec("12a").unwrap_err(), MarginError::ArithmeticOverflow);
    assert_eq!(parse_u64_dec("-5").unwrap_err(), MarginError::ArithmeticOverflow);
    assert_eq!(u64_to_dec(0), "0");
    assert_eq!(u64_to_dec(12345), "12345");
    assert_eq!(u64_to_dec(u64::MAX), "18446744073709551615");
    assert_eq!(parse_u64_dec(&u64_to_dec(987654321)).unwrap(), 987654321);
}

#[test]
fn provider_blob_decodes_through_base64() {
    // A real decode: four base64 'A's are three zero bytes.
    assert_eq!(decode_provider_blob("AAAA").unwrap(), vec![0, 0, 0]);
    assert_eq!(decode_provider_blob("aGVsbG8=").unwrap(), b"hello".to_vec());
    assert_eq!(decode_provider_blob("!!!").unwrap_err(), MarginError::ProviderMisuse);
}

#[test]
fn supported_mints_merge_without_duplicates() {
    let pool = vec![5, 6, 5, 7];
    let extra = vec![6, 8, 8];
    let merged = margin_ledger::compose::collect_supported_mints(&pool, &extra);
    assert_eq!(merged, vec![5, 6, 7, 8]);
    let none = margin_ledger::compose::collect_supported_mints(&vec![], &vec![]);
    assert!(none.is_empty());
}
