//! The flash-loan envelope: a paired begin/end bracket inside one atomic
//! transaction.
//!
//! `flash_loan_begin` records the pre-transfer balances and the requested
//! amounts; the loan is not yet a liability. `flash_loan_end_settle`
//! computes the settled ledger and position state from the re-read
//! balances: a shortfall becomes a real borrow inflated by the origination
//! fee, a surplus becomes a deposit, an exact return changes nothing.
//! `flash_loan_end_commit` then accepts or rejects the settled state on the
//! solvency verdict; rejection returns nothing, so the caller's original
//! state stands untouched — the all-or-nothing contract holds by value
//! semantics.

use vstd::prelude::*;

verus! {

use crate::MarginError;
use crate::fixnum::FixedVal;
use crate::fixnum::SCALE;
use crate::fixnum::cmul_raw;
use crate::fixnum::in_i128;
use crate::ledger::Bank;
use crate::position::Position;

/// What kind of action the enclosing transaction performs between the
/// bracket's two halves.
#[derive(Clone, Copy, Debug, PartialEq, Eq, Structural)]
pub enum FlashLoanType {
    /// An exchange of one asset for another; a momentary health dip is
    /// tolerated if it is no worse than before the bracket.
    Swap,
    /// Anything else; the settled state must be healthy outright.
    Other,
}

/// Transient bookkeeping carried from the bracket's begin to its end; never
/// persisted past the transaction.
#[derive(Clone, Debug, PartialEq, Eq)]
pub struct LoanRecord {
    /// Requested loan amount per asset.
    pub amounts: Vec<u64>,
    /// Holding-account balance per asset before the transfer.
    pub pre_balances: Vec<u64>,
}

/// Opens the bracket: records, per asset, the requested amount and the
/// pre-transfer holding-account balance. No ledger total changes here.
pub fn flash_loan_begin(loan_amounts: &Vec<u64>, pre_balances: &Vec<u64>) -> (r: LoanRecord)
    requires
        loan_amounts@.len() == pre_balances@.len(),
    ensures
        r.amounts@ == loan_amounts@,
        r.pre_balances@ == pre_balances@,
{
    LoanRecord { amounts: loan_amounts.clone(), pre_balances: pre_balances.clone() }
}

/// Native raw value of a shortfall turned into a borrow: the missing amount
/// inflated by the origination fee, rounded up against the account.
pub open spec fn shortfall_borrow_raw(bank: Bank, shortfall: int) -> int {
    cmul_raw(shortfall * SCALE, SCALE + bank.loan_origination_fee_rate.raw)
}

/// The native raw delta that settlement applies to the position: zero on an
/// exact return, the surplus as a deposit, or the inflated shortfall as a
/// borrow.
pub open spec fn settle_delta_raw(bank: Bank, amount: u64, pre: u64, post: u64) -> int {
    let d = post - pre - amount;
    if d >= 0 {
        d * SCALE
    } else {
        -shortfall_borrow_raw(bank, -d)
    }
}

/// Exactly when settling one loaned asset succeeds.
pub open spec fn settle_ok(bank: Bank, pos: Position, amount: u64, pre: u64, post: u64) -> bool {
    let d = post - pre - amount;
    if d == 0 {
        true
    } else if d > 0 {
        bank.apply_ok(pos.indexed_balance.raw as int, d * SCALE)
    } else {
        &&& in_i128(SCALE + bank.loan_origination_fee_rate.raw)
        &&& in_i128(shortfall_borrow_raw(bank, -d))
        &&& in_i128(-shortfall_borrow_raw(bank, -d))
        &&& bank.apply_ok(pos.indexed_balance.raw as int, -shortfall_borrow_raw(bank, -d))
    }
}

/// The ledger record after settling one loaned asset.
pub open spec fn settled_bank(bank: Bank, pos: Position, amount: u64, pre: u64, post: u64) -> Bank {
    let d = post - pre - amount;
    if d == 0 {
        bank
    } else {
        let delta = settle_delta_raw(bank, amount, pre, post);
        let nb = bank.apply_new_balance_raw(pos.indexed_balance.raw as int, delta);
        Bank {
            indexed_total_deposits: FixedVal {
                raw: bank.deposits_total_after(pos.indexed_balance.raw as int, nb) as i128,
            },
            indexed_total_borrows: FixedVal {
                raw: bank.borrows_total_after(pos.indexed_balance.raw as int, nb) as i128,
            },
            ..bank
        }
    }
}

/// The position after settling one loaned asset.
pub open spec fn settled_position(
    bank: Bank,
    pos: Position,
    amount: u64,
    pre: u64,
    post: u64,
) -> Position {
    let d = post - pre - amount;
    if d == 0 {
        pos
    } else {
        let delta = settle_delta_raw(bank, amount, pre, post);
        Position {
            token_index: pos.token_index,
            active: vstd::math::abs(
                bank.apply_new_native_raw(pos.indexed_balance.raw as int, delta),
            ) > bank.dust_threshold.raw,
            indexed_balance: FixedVal {
                raw: bank.apply_new_balance_raw(pos.indexed_balance.raw as int, delta) as i128,
            },
        }
    }
}

/// Settles one loaned asset: compares what came back against what was lent
/// and books the difference through the position. An exact return is a
/// fee-free no-op.
pub fn settle_one(bank: &mut Bank, pos: &mut Position, amount: u64, pre: u64, post: u64) -> (r:
    Result<(), MarginError>)
    requires
        old(bank).wf(),
    ensures
        r is Ok <==> settle_ok(*old(bank), *old(pos), amount, pre, post),
        r is Err ==> *final(bank) == *old(bank) && *final(pos) == *old(pos) && (r == Err::<
            (),
            MarginError,
        >(MarginError::ArithmeticOverflow)),
        r is Ok ==> *final(bank) == settled_bank(*old(bank), *old(pos), amount, pre, post)
            && *final(pos) == settled_position(*old(bank), *old(pos), amount, pre, post),
        post - pre == amount ==> r is Ok && *final(bank) == *old(bank) && *final(pos) == *old(pos),
        final(bank).wf(),
{
    let d: i128 = (post as i128) - (pre as i128) - (amount as i128);
    if d == 0 {
        return Ok(());
    }
    if d > 0 {
        let delta = FixedVal { raw: d * SCALE };
        match bank.apply_delta(pos, delta) {
            Err(e) => Err(e),
            Ok(_) => Ok(()),
        }
    } else {
        let shortfall = FixedVal { raw: (-d) * SCALE };
        let factor: FixedVal = match FixedVal::one().checked_add(bank.loan_origination_fee_rate) {
            None => { return Err(MarginError::ArithmeticOverflow); },
            Some(v) => v,
        };
        let borrow: FixedVal = match shortfall.checked_mul_ceil(factor) {
            None => { return Err(MarginError::ArithmeticOverflow); },
            Some(v) => v,
        };
        let neg_borrow: FixedVal = match borrow.checked_neg() {
            None => { return Err(MarginError::ArithmeticOverflow); },
            Some(v) => v,
        };
        match bank.apply_delta(pos, neg_borrow) {
            Err(e) => Err(e),
            Ok(_) => Ok(()),
        }
    }
}

/// Settles every loaned asset against the re-read balances, producing the
/// would-be new ledger and position state. The inputs stay untouched: on
/// any failure nothing has changed anywhere.
pub fn flash_loan_end_settle(
    banks: &Vec<Bank>,
    positions: &Vec<Position>,
    record: &LoanRecord,
    post_balances: &Vec<u64>,
) -> (r: Result<(Vec<Bank>, Vec<Position>), MarginError>)
    requires
        banks@.len() == positions@.len() == record.amounts@.len(),
        record.amounts@.len() == record.pre_balances@.len() == post_balances@.len(),
        forall|i: int| 0 <= i < banks@.len() ==> (#[trigger] banks@[i]).wf(),
    ensures
        r is Ok <==> (forall|i: int|
            0 <= i < banks@.len() ==> settle_ok(
                #[trigger] banks@[i],
                positions@[i],
                record.amounts@[i],
                record.pre_balances@[i],
                post_balances@[i],
            )),
        r is Err ==> r == Err::<(Vec<Bank>, Vec<Position>), MarginError>(
            MarginError::ArithmeticOverflow,
        ),
        r matches Ok((nb, np)) ==> nb@.len() == banks@.len() && np@.len() == banks@.len() && (
        forall|i: int|
            0 <= i < banks@.len() ==> nb@[i] == settled_bank(
                #[trigger] banks@[i],
                positions@[i],
                record.amounts@[i],
                record.pre_balances@[i],
                post_balances@[i],
            ) && np@[i] == settled_position(
                banks@[i],
                positions@[i],
                record.amounts@[i],
                record.pre_balances@[i],
                post_balances@[i],
            )),
{
    let n = banks.len();
    let mut new_banks: Vec<Bank> = Vec::new();
    let mut new_positions: Vec<Position> = Vec::new();
    let mut i: usize = 0;
    while i < n
        invariant
            n == banks@.len() == positions@.len() == record.amounts@.len(),
            record.amounts@.len() == record.pre_balances@.len() == post_balances@.len(),
            forall|k: int| 0 <= k < banks@.len() ==> (#[trigger] banks@[k]).wf(),
            i <= n,
            new_banks@.len() == i,
            new_positions@.len() == i,
            forall|k: int|
                0 <= k < i ==> settle_ok(
                    #[trigger] banks@[k],
                    positions@[k],
                    record.amounts@[k],
                    record.pre_balances@[k],
                    post_balances@[k],
                ),
            forall|k: int|
                0 <= k < i ==> new_banks@[k] == settled_bank(
                    #[trigger] banks@[k],
                    positions@[k],
                    record.amounts@[k],
                    record.pre_balances@[k],
                    post_balances@[k],
                ) && new_positions@[k] == settled_position(
                    banks@[k],
                    positions@[k],
                    record.amounts@[k],
                    record.pre_balances@[k],
                    post_balances@[k],
                ),
        decreases n - i,
    {
        let mut b: Bank = banks[i];
        let mut p: Position = positions[i];
        match settle_one(&mut b, &mut p, record.amounts[i], record.pre_balances[i], post_balances[i])
        {
            Err(e) => { return Err(e); },
            Ok(_) => {},
        }
        new_banks.push(b);
        new_positions.push(p);
        i = i + 1;
    }
    Ok((new_banks, new_positions))
}

/// Round-trip law: returning exactly what was lent settles to the original
/// ledger and position state — a fee-free no-op on borrows and deposits
/// alike.
pub proof fn lemma_flash_loan_round_trip(bank: Bank, pos: Position, amount: u64, pre: u64, post: u64)
    requires
        post - pre == amount,
    ensures
        settle_ok(bank, pos, amount, pre, post),
        settled_bank(bank, pos, amount, pre, post) == bank,
        settled_position(bank, pos, amount, pre, post) == pos,
{
}

/// A settlement without a shortfall on a deposit-side position books no
/// borrow: the indexed borrow total is untouched and a solvent ledger
/// stays solvent whenever its deposits did not shrink.
pub proof fn lemma_no_shortfall_keeps_borrows(
    bank: Bank,
    pos: Position,
    amount: u64,
    pre: u64,
    post: u64,
)
    requires
        bank.wf(),
        pos.indexed_balance.raw >= 0,
        post - pre >= amount,
    ensures
        settled_bank(bank, pos, amount, pre, post).indexed_total_borrows
            == bank.indexed_total_borrows,
        bank.solvent() && settled_bank(bank, pos, amount, pre, post).indexed_total_deposits.raw
            >= bank.indexed_total_deposits.raw ==> settled_bank(
            bank,
            pos,
            amount,
            pre,
            post,
        ).solvent(),
{
    let d = post - pre - amount;
    if d != 0 {
        let bal = pos.indexed_balance.raw as int;
        let delta = settle_delta_raw(bank, amount, pre, post);
        crate::ledger::lemma_fmul_nonneg(bal, bank.deposit_index.raw as int);
        assert(delta == d * SCALE);
        assert(d * SCALE >= 0) by (nonlinear_arith)
            requires
                d > 0,
                SCALE > 0,
        ;
        crate::ledger::lemma_rebind_sign(bank, bal, delta);
    }
}

/// Shortfall law: returning less than was lent books a new borrow of the
/// missing amount inflated by the origination fee, rounded up against the
/// account.
pub proof fn lemma_flash_loan_shortfall(bank: Bank, pos: Position, amount: u64, pre: u64, post: u64)
    requires
        post - pre < amount,
    ensures
        settle_delta_raw(bank, amount, pre, post) == -cmul_raw(
            (amount - (post - pre)) * SCALE,
            SCALE + bank.loan_origination_fee_rate.raw,
        ),
{
}

/// How one instruction of the enclosing transaction looks to the bracket
/// guard.
#[derive(Clone, Copy, Debug, PartialEq, Eq, Structural)]
pub enum BracketTag {
    /// The opening half, with the number of loans it declares.
    Begin { num_loans: usize },
    /// The closing half, with the number of loans it declares.
    End { num_loans: usize },
    /// Any instruction unrelated to the bracket.
    Unrelated,
}

/// Number of opening halves in a prefix of the transaction.
pub open spec fn count_begins(s: Seq<BracketTag>) -> nat
    decreases s.len(),
{
    if s.len() == 0 {
        0
    } else {
        count_begins(s.drop_last()) + (if s.last() is Begin {
            1nat
        } else {
            0nat
        })
    }
}

/// Number of closing halves in a prefix of the transaction.
pub open spec fn count_ends(s: Seq<BracketTag>) -> nat
    decreases s.len(),
{
    if s.len() == 0 {
        0
    } else {
        count_ends(s.drop_last()) + (if s.last() is End {
            1nat
        } else {
            0nat
        })
    }
}

/// Index of the first opening half, or the length when there is none.
pub open spec fn first_begin(s: Seq<BracketTag>) -> int
    decreases s.len(),
{
    if s.len() == 0 {
        0
    } else {
        let fb = first_begin(s.drop_last());
        if fb < s.len() - 1 {
            fb
        } else if s.last() is Begin {
            s.len() - 1
        } else {
            s.len() as int
        }
    }
}

/// Index of the first closing half, or the length when there is none.
pub open spec fn first_end(s: Seq<BracketTag>) -> int
    decreases s.len(),
{
    if s.len() == 0 {
        0
    } else {
        let fe = first_end(s.drop_last());
        if fe < s.len() - 1 {
            fe
        } else if s.last() is End {
            s.len() - 1
        } else {
            s.len() as int
        }
    }
}

/// The loan count an instruction declares; zero for unrelated ones.
pub open spec fn declared_loans(t: BracketTag) -> nat {
    match t {
        BracketTag::Begin { num_loans } => num_loans as nat,
        BracketTag::End { num_loans } => num_loans as nat,
        BracketTag::Unrelated => 0,
    }
}

/// A well-bracketed transaction: exactly one opening and one closing half,
/// in that order, declaring the same number of loans. Uniqueness of the
/// counts rules out any nested or interleaved second bracket.
pub open spec fn valid_bracket(s: Seq<BracketTag>) -> bool {
    &&& count_begins(s) == 1
    &&& count_ends(s) == 1
    &&& first_begin(s) < first_end(s)
    &&& declared_loans(s[first_begin(s)]) == declared_loans(s[first_end(s)])
}

/// Inspects the full ordered instruction list of the enclosing transaction
/// and accepts exactly the well-bracketed ones.
pub fn validate_bracket(ixs: &Vec<BracketTag>) -> (ok: bool)
    ensures
        ok == valid_bracket(ixs@),
{
    let n = ixs.len();
    let mut begin_count: usize = 0;
    let mut end_count: usize = 0;
    let mut fb: usize = 0;
    let mut fe: usize = 0;
    let mut fb_loans: usize = 0;
    let mut fe_loans: usize = 0;
    let mut i: usize = 0;
    while i < n
        invariant
            n == ixs@.len(),
            i <= n,
            begin_count == count_begins(ixs@.take(i as int)),
            end_count == count_ends(ixs@.take(i as int)),
            fb == first_begin(ixs@.take(i as int)),
            fe == first_end(ixs@.take(i as int)),
            begin_count <= i,
            end_count <= i,
            fb <= i,
            fe <= i,
            fb < i ==> fb_loans == declared_loans(ixs@[fb as int]),
            fe < i ==> fe_loans == declared_loans(ixs@[fe as int]),
        decreases n - i,
    {
        proof {
            assert(ixs@.take(i + 1).drop_last() =~= ixs@.take(i as int));
            lemma_count_first_relation(ixs@.take(i as int));
        }
        match ixs[i] {
            BracketTag::Begin { num_loans } => {
                if begin_count == 0 {
                    fb = i;
                    fb_loans = num_loans;
                }
                if end_count == 0 {
                    fe = i + 1;
                }
                begin_count = begin_count + 1;
            },
            BracketTag::End { num_loans } => {
                if end_count == 0 {
                    fe = i;
                    fe_loans = num_loans;
                }
                if begin_count == 0 {
                    fb = i + 1;
                }
                end_count = end_count + 1;
            },
            BracketTag::Unrelated => {
                if begin_count == 0 {
                    fb = i + 1;
                }
                if end_count == 0 {
                    fe = i + 1;
                }
            },
        }
        proof {
            lemma_count_first_relation(ixs@.take(i + 1));
        }
        i = i + 1;
    }
    proof {
        assert(ixs@.take(n as int) =~= ixs@);
        lemma_count_first_relation(ixs@);
    }
    begin_count == 1 && end_count == 1 && fb < fe && fb_loans == fe_loans
}

/// A transaction with a single opening half at `i` and a single closing
/// half at `j`, in that order and with matching loan counts, passes the
/// bracket guard.
pub proof fn lemma_bracket_from_unique_pair(s: Seq<BracketTag>, i: int, j: int)
    requires
        0 <= i < j < s.len(),
        s[i] is Begin,
        s[j] is End,
        forall|k: int| 0 <= k < s.len() && k != i ==> !((#[trigger] s[k]) is Begin),
        forall|k: int| 0 <= k < s.len() && k != j ==> !((#[trigger] s[k]) is End),
        declared_loans(s[i]) == declared_loans(s[j]),
    ensures
        valid_bracket(s),
{
    lemma_count_single_begin(s, i);
    lemma_count_single_end(s, j);
    lemma_first_begin_is(s, i);
    lemma_first_end_is(s, j);
}

/// A sequence whose only opening half sits at `i` counts exactly one.
proof fn lemma_count_single_begin(s: Seq<BracketTag>, i: int)
    requires
        0 <= i < s.len(),
        s[i] is Begin,
        forall|k: int| 0 <= k < s.len() && k != i ==> !((#[trigger] s[k]) is Begin),
    ensures
        count_begins(s) == 1,
    decreases s.len(),
{
    if i == s.len() - 1 {
        lemma_count_no_begin(s.drop_last());
    } else {
        lemma_count_single_begin(s.drop_last(), i);
    }
}

/// A sequence without an opening half counts zero.
proof fn lemma_count_no_begin(s: Seq<BracketTag>)
    requires
        forall|k: int| 0 <= k < s.len() ==> !((#[trigger] s[k]) is Begin),
    ensures
        count_begins(s) == 0,
    decreases s.len(),
{
    if s.len() > 0 {
        lemma_count_no_begin(s.drop_last());
    }
}

/// A sequence whose only closing half sits at `j` counts exactly one.
proof fn lemma_count_single_end(s: Seq<BracketTag>, j: int)
    requires
        0 <= j < s.len(),
        s[j] is End,
        forall|k: int| 0 <= k < s.len() && k != j ==> !((#[trigger] s[k]) is End),
    ensures
        count_ends(s) == 1,
    decreases s.len(),
{
    if j == s.len() - 1 {
        lemma_count_no_end(s.drop_last());
    } else {
        lemma_count_single_end(s.drop_last(), j);
    }
}

/// A sequence without a closing half counts zero.
proof fn lemma_count_no_end(s: Seq<BracketTag>)
    requires
        forall|k: int| 0 <= k < s.len() ==> !((#[trigger] s[k]) is End),
    ensures
        count_ends(s) == 0,
    decreases s.len(),
{
    if s.len() > 0 {
        lemma_count_no_end(s.drop_last());
    }
}

/// The first opening half is the one at `i` when no earlier index holds
/// one.
proof fn lemma_first_begin_is(s: Seq<BracketTag>, i: int)
    requires
        0 <= i < s.len(),
        s[i] is Begin,
        forall|k: int| 0 <= k < i ==> !((#[trigger] s[k]) is Begin),
    ensures
        first_begin(s) == i,
    decreases s.len(),
{
    if i == s.len() - 1 {
        lemma_first_begin_none(s.drop_last());
    } else {
        lemma_first_begin_is(s.drop_last(), i);
    }
}

/// Without any opening half, the first-index tracker sits at the length.
proof fn lemma_first_begin_none(s: Seq<BracketTag>)
    requires
        forall|k: int| 0 <= k < s.len() ==> !((#[trigger] s[k]) is Begin),
    ensures
        first_begin(s) == s.len(),
    decreases s.len(),
{
    if s.len() > 0 {
        lemma_first_begin_none(s.drop_last());
    }
}

/// The first closing half is the one at `j` when no earlier index holds
/// one.
proof fn lemma_first_end_is(s: Seq<BracketTag>, j: int)
    requires
        0 <= j < s.len(),
        s[j] is End,
        forall|k: int| 0 <= k < j ==> !((#[trigger] s[k]) is End),
    ensures
        first_end(s) == j,
    decreases s.len(),
{
    if j == s.len() - 1 {
        lemma_first_end_none(s.drop_last());
    } else {
        lemma_first_end_is(s.drop_last(), j);
    }
}

/// Without any closing half, the first-index tracker sits at the length.
proof fn lemma_first_end_none(s: Seq<BracketTag>)
    requires
        forall|k: int| 0 <= k < s.len() ==> !((#[trigger] s[k]) is End),
    ensures
        first_end(s) == s.len(),
    decreases s.len(),
{
    if s.len() > 0 {
        lemma_first_end_none(s.drop_last());
    }
}

/// The first-index trackers sit at the length exactly while the matching
/// count is still zero.
proof fn lemma_count_first_relation(s: Seq<BracketTag>)
    ensures
        count_begins(s) == 0 <==> first_begin(s) == s.len(),
        count_begins(s) > 0 ==> 0 <= first_begin(s) < s.len(),
        count_ends(s) == 0 <==> first_end(s) == s.len(),
        count_ends(s) > 0 ==> 0 <= first_end(s) < s.len(),
    decreases s.len(),
{
    if s.len() > 0 {
        lemma_count_first_relation(s.drop_last());
    }
}

/// Whether the envelope accepts a settled state: non-negative health always
/// passes, and a swap additionally passes when health did not get worse
/// than it was before the bracket.
pub open spec fn health_accepts(kind: FlashLoanType, pre_health: int, post_health: int) -> bool {
    post_health >= 0 || (kind == FlashLoanType::Swap && post_health >= pre_health)
}

/// The solvency verdict on a settled state.
pub fn health_decision(kind: FlashLoanType, pre_health: FixedVal, post_health: FixedVal) -> (r:
    bool)
    ensures
        r == health_accepts(kind, pre_health.raw as int, post_health.raw as int),
{
    post_health.raw >= 0 || (matches!(kind, FlashLoanType::Swap) && post_health.raw
        >= pre_health.raw)
}

/// Leniency law: for a swap a negative settled health passes exactly when
/// it is no worse than the health before the bracket; for any other kind a
/// negative settled health is always rejected.
pub proof fn lemma_health_rule(kind: FlashLoanType, pre_health: int, post_health: int)
    ensures
        post_health < 0 && kind == FlashLoanType::Swap ==> (health_accepts(
            kind,
            pre_health,
            post_health,
        ) <==> post_health >= pre_health),
        post_health < 0 && kind != FlashLoanType::Swap ==> !health_accepts(
            kind,
            pre_health,
            post_health,
        ),
        post_health >= 0 ==> health_accepts(kind, pre_health, post_health),
{
}

/// How the bracket resolves.
#[derive(Debug)]
pub enum FlashLoanOutcome {
    /// The settled state is committed.
    Settled { banks: Vec<Bank>, positions: Vec<Position> },
    /// The whole transaction rolls back; the caller keeps its pre-bracket
    /// state.
    Rejected,
}

/// Closes the bracket: commits the settled state exactly when the solvency
/// verdict accepts it, and rejects everything otherwise.
pub fn flash_loan_end_commit(
    settled_banks: Vec<Bank>,
    settled_positions: Vec<Position>,
    kind: FlashLoanType,
    pre_health: FixedVal,
    post_health: FixedVal,
) -> (r: FlashLoanOutcome)
    ensures
        health_accepts(kind, pre_health.raw as int, post_health.raw as int) ==> r == (
        FlashLoanOutcome::Settled { banks: settled_banks, positions: settled_positions }),
        !health_accepts(kind, pre_health.raw as int, post_health.raw as int) ==> r == (
        FlashLoanOutcome::Rejected {  }),
{
    if health_decision(kind, pre_health, post_health) {
        FlashLoanOutcome::Settled { banks: settled_banks, positions: settled_positions }
    } else {
        FlashLoanOutcome::Rejected
    }
}

} // verus!
