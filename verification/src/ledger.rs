//! The per-asset ledger record and its interest accounting.
//!
//! One `Bank` holds the shared pool of deposits and borrows for a single
//! asset. Raw deposited and borrowed units are kept in index units: the
//! native value of a balance is the indexed amount times the matching
//! index, and both indices only ever grow as interest accrues.
//!
//! Every division rounds toward the ledger's favor: amounts owed to an
//! account round down, amounts owed by an account round up in magnitude.

use vstd::prelude::*;

verus! {

use crate::MarginError;
use crate::fixnum::FixedVal;
use crate::fixnum::SCALE;
use crate::fixnum::fdiv;
use crate::fixnum::cdiv;
use crate::fixnum::fmul_raw;
use crate::fixnum::cmul_raw;
use crate::fixnum::fdivq_raw;
use crate::fixnum::in_i128;
use vstd::string::StringSliceAdditionalSpecFns;
use vstd::string::StrSliceExecFns;

/// Starting value of both indices on registration.
pub const INDEX_START_RAW: i128 = 1_000_000 * SCALE;

/// Seconds per year, the unit of the interest-curve rates.
pub const YEAR_SECS: i128 = 31_536_000;

/// The ledger record for one asset.
#[derive(Clone, Copy, Debug)]
pub struct Bank {
    /// Name of the asset, zero-padded.
    pub name: [u8; 16],
    pub group: u64,
    pub mint: u64,
    pub vault: u64,
    pub oracle: u64,
    /// Multiplier from indexed deposits to native value; non-decreasing.
    pub deposit_index: FixedVal,
    /// Multiplier from indexed borrows to native value; non-decreasing.
    pub borrow_index: FixedVal,
    /// Sum of positive position balances, in index units.
    pub indexed_total_deposits: FixedVal,
    /// Sum of negative position balance magnitudes, in index units.
    pub indexed_total_borrows: FixedVal,
    /// Time of the last accrual.
    pub last_updated: i64,
    /// First control point of the utilization curve.
    pub util0: FixedVal,
    pub rate0: FixedVal,
    /// Second control point of the utilization curve.
    pub util1: FixedVal,
    pub rate1: FixedVal,
    /// Borrow rate at full utilization.
    pub max_rate: FixedVal,
    /// Fees retained by the protocol so far, in native units.
    pub collected_fees_native: FixedVal,
    /// Inflation applied to a flash-loan shortfall turned into a borrow.
    pub loan_origination_fee_rate: FixedVal,
    /// Share of borrow interest retained by the protocol.
    pub loan_fee_rate: FixedVal,
    pub maint_asset_weight: FixedVal,
    pub init_asset_weight: FixedVal,
    pub maint_liab_weight: FixedVal,
    pub init_liab_weight: FixedVal,
    pub liquidation_fee: FixedVal,
    /// Magnitude below which a balance counts as zero for the lifecycle.
    pub dust_threshold: FixedVal,
    pub token_index: u16,
    pub mint_decimals: u8,
}

impl Bank {
    /// Well-formedness: indices at least one, a strictly increasing
    /// two-segment curve with ordered non-negative rates, and fee and dust
    /// parameters in range.
    pub open spec fn wf(self) -> bool {
        &&& self.deposit_index.raw >= SCALE
        &&& self.borrow_index.raw >= SCALE
        &&& 0 <= self.util0.raw < self.util1.raw < SCALE
        &&& 0 <= self.rate0.raw <= self.rate1.raw <= self.max_rate.raw
        &&& 0 <= self.loan_fee_rate.raw <= SCALE
        &&& 0 <= self.loan_origination_fee_rate.raw
        &&& 0 <= self.dust_threshold.raw
    }

    /// The ledger never lends more than is deposited: at every settled
    /// state the indexed borrows stay within the indexed deposits. The
    /// solvency gate of the flash-loan envelope maintains this across
    /// settlements.
    pub open spec fn solvent(self) -> bool {
        self.indexed_total_borrows.raw <= self.indexed_total_deposits.raw
    }

    /// Total native value of deposits, rounded down.
    pub open spec fn native_total_deposits_raw(self) -> int {
        fmul_raw(self.indexed_total_deposits.raw as int, self.deposit_index.raw as int)
    }

    /// Total native value of borrows, rounded down.
    pub open spec fn native_total_borrows_raw(self) -> int {
        fmul_raw(self.indexed_total_borrows.raw as int, self.borrow_index.raw as int)
    }

    /// Utilization of the pool: native borrows over native deposits, zero
    /// when nothing is deposited or nothing is borrowed, rounded down.
    pub open spec fn utilization_raw(self) -> int {
        if self.native_total_deposits_raw() <= 0 || self.native_total_borrows_raw() <= 0 {
            0
        } else {
            fdivq_raw(self.native_total_borrows_raw(), self.native_total_deposits_raw())
        }
    }

    /// Yearly borrow rate interpolated on the two-segment utilization curve,
    /// clamped at the endpoints. Slope divisions round down.
    pub open spec fn borrow_rate_raw(self) -> int {
        let u = self.utilization_raw();
        if u <= self.util0.raw {
            self.rate0.raw as int
        } else if u < self.util1.raw {
            self.rate0.raw + fmul_raw(
                fdivq_raw(u - self.util0.raw, self.util1.raw - self.util0.raw),
                self.rate1.raw - self.rate0.raw,
            )
        } else if u < SCALE {
            self.rate1.raw + fmul_raw(
                fdivq_raw(u - self.util1.raw, SCALE - self.util1.raw),
                self.max_rate.raw - self.rate1.raw,
            )
        } else {
            self.max_rate.raw as int
        }
    }

    /// Yearly deposit rate: the borrow rate scaled by utilization and by the
    /// share not retained as protocol fee, rounded down.
    pub open spec fn deposit_rate_raw(self) -> int {
        fmul_raw(
            fmul_raw(self.borrow_rate_raw(), self.utilization_raw()),
            SCALE - self.loan_fee_rate.raw,
        )
    }

    /// Yearly protocol fee rate on deposits: the share of the borrow-side
    /// interest retained by the protocol, rounded down.
    pub open spec fn fee_rate_raw(self) -> int {
        fmul_raw(
            fmul_raw(self.borrow_rate_raw(), self.utilization_raw()),
            self.loan_fee_rate.raw as int,
        )
    }

    /// Borrow-index growth over the elapsed time, rounded up.
    pub open spec fn borrow_growth_raw(self, now: i64) -> int {
        cdiv(self.borrow_rate_raw() * (now - self.last_updated), YEAR_SECS as int)
    }

    /// Deposit-index growth over the elapsed time, rounded down.
    pub open spec fn deposit_growth_raw(self, now: i64) -> int {
        fdiv(self.deposit_rate_raw() * (now - self.last_updated), YEAR_SECS as int)
    }

    /// The borrow index after accrual, rounded up.
    pub open spec fn accrued_borrow_index_raw(self, now: i64) -> int {
        cmul_raw(self.borrow_index.raw as int, SCALE + self.borrow_growth_raw(now))
    }

    /// The deposit index after accrual, rounded down.
    pub open spec fn accrued_deposit_index_raw(self, now: i64) -> int {
        fmul_raw(self.deposit_index.raw as int, SCALE + self.deposit_growth_raw(now))
    }

    /// Native fees accrued to the protocol over the elapsed time.
    pub open spec fn accrued_fees_raw(self, now: i64) -> int {
        self.collected_fees_native.raw + fmul_raw(
            self.native_total_deposits_raw(),
            fdiv(self.fee_rate_raw() * (now - self.last_updated), YEAR_SECS as int),
        )
    }

    /// Whether the interpolation intermediates of the taken curve segment
    /// stay representable.
    pub open spec fn rate_slope_ok(self) -> bool {
        let u = self.utilization_raw();
        if u <= self.util0.raw {
            true
        } else if u < self.util1.raw {
            &&& in_i128(fdivq_raw(u - self.util0.raw, self.util1.raw - self.util0.raw))
            &&& in_i128(self.borrow_rate_raw())
        } else if u < SCALE {
            &&& in_i128(fdivq_raw(u - self.util1.raw, SCALE - self.util1.raw))
            &&& in_i128(self.borrow_rate_raw())
        } else {
            true
        }
    }

    /// Exactly when `accrue` succeeds: every intermediate of the computation
    /// stays representable.
    pub open spec fn accrue_ok(self, now: i64) -> bool {
        &&& in_i128(self.native_total_deposits_raw())
        &&& in_i128(self.native_total_borrows_raw())
        &&& in_i128(self.utilization_raw())
        &&& self.rate_slope_ok()
        &&& in_i128(fmul_raw(self.borrow_rate_raw(), self.utilization_raw()))
        &&& in_i128(self.deposit_rate_raw())
        &&& in_i128(self.fee_rate_raw())
        &&& in_i128(self.borrow_rate_raw() * (now - self.last_updated))
        &&& in_i128(self.deposit_rate_raw() * (now - self.last_updated))
        &&& in_i128(self.fee_rate_raw() * (now - self.last_updated))
        &&& in_i128(SCALE + self.borrow_growth_raw(now))
        &&& in_i128(SCALE + self.deposit_growth_raw(now))
        &&& in_i128(self.accrued_borrow_index_raw(now))
        &&& in_i128(self.accrued_deposit_index_raw(now))
        &&& in_i128(
            fmul_raw(
                self.native_total_deposits_raw(),
                fdiv(self.fee_rate_raw() * (now - self.last_updated), YEAR_SECS as int),
            ),
        )
        &&& in_i128(self.accrued_fees_raw(now))
    }

    /// Brings the indices, the collected fees and the accrual time up to
    /// `now`. Interest compounds at the interpolated borrow rate; the
    /// deposit side receives the share not retained as protocol fee.
    /// Neither index ever decreases. Any intermediate overflow surfaces as
    /// an arithmetic error and leaves the record untouched.
    pub fn accrue(&mut self, now: i64) -> (r: Result<(), MarginError>)
        requires
            old(self).wf(),
            now >= old(self).last_updated,
        ensures
            r is Ok <==> old(self).accrue_ok(now),
            r is Err ==> *final(self) == *old(self) && (r == Err::<(), MarginError>(
                MarginError::ArithmeticOverflow,
            )),
            r is Ok ==> final(self).deposit_index.raw == old(self).accrued_deposit_index_raw(now)
                && final(self).borrow_index.raw == old(self).accrued_borrow_index_raw(now)
                && final(self).collected_fees_native.raw == old(self).accrued_fees_raw(now)
                && final(self).last_updated == now,
            r is Ok ==> *final(self) == (Bank {
                deposit_index: final(self).deposit_index,
                borrow_index: final(self).borrow_index,
                collected_fees_native: final(self).collected_fees_native,
                last_updated: now,
                ..*old(self)
            }),
            final(self).deposit_index.raw >= old(self).deposit_index.raw,
            final(self).borrow_index.raw >= old(self).borrow_index.raw,
            final(self).wf(),
    {
        let elapsed: i128 = (now as i128) - (self.last_updated as i128);
        let nd: FixedVal = match self.indexed_total_deposits.checked_mul_floor(self.deposit_index) {
            None => { return Err(MarginError::ArithmeticOverflow); },
            Some(v) => v,
        };
        let nb: FixedVal = match self.indexed_total_borrows.checked_mul_floor(self.borrow_index) {
            None => { return Err(MarginError::ArithmeticOverflow); },
            Some(v) => v,
        };
        let util: FixedVal = if nd.raw <= 0 || nb.raw <= 0 {
            FixedVal::zero()
        } else {
            match nb.checked_div_floor(nd) {
                None => { return Err(MarginError::ArithmeticOverflow); },
                Some(v) => v,
            }
        };
        let rate: FixedVal = if util.raw <= self.util0.raw {
            self.rate0
        } else if util.raw < self.util1.raw {
            let frac: FixedVal = match (FixedVal { raw: util.raw - self.util0.raw }).checked_div_floor(
                FixedVal { raw: self.util1.raw - self.util0.raw },
            ) {
                None => { return Err(MarginError::ArithmeticOverflow); },
                Some(v) => v,
            };
            let seg: FixedVal = match frac.checked_mul_floor(
                FixedVal { raw: self.rate1.raw - self.rate0.raw },
            ) {
                None => { return Err(MarginError::ArithmeticOverflow); },
                Some(v) => v,
            };
            match self.rate0.checked_add(seg) {
                None => { return Err(MarginError::ArithmeticOverflow); },
                Some(v) => v,
            }
        } else if util.raw < SCALE {
            let frac: FixedVal = match (FixedVal { raw: util.raw - self.util1.raw }).checked_div_floor(
                FixedVal { raw: SCALE - self.util1.raw },
            ) {
                None => { return Err(MarginError::ArithmeticOverflow); },
                Some(v) => v,
            };
            let seg: FixedVal = match frac.checked_mul_floor(
                FixedVal { raw: self.max_rate.raw - self.rate1.raw },
            ) {
                None => { return Err(MarginError::ArithmeticOverflow); },
                Some(v) => v,
            };
            match self.rate1.checked_add(seg) {
                None => { return Err(MarginError::ArithmeticOverflow); },
                Some(v) => v,
            }
        } else {
            self.max_rate
        };
        let rate_util: FixedVal = match rate.checked_mul_floor(util) {
            None => { return Err(MarginError::ArithmeticOverflow); },
            Some(v) => v,
        };
        let deposit_rate: FixedVal = match rate_util.checked_mul_floor(
            FixedVal { raw: SCALE - self.loan_fee_rate.raw },
        ) {
            None => { return Err(MarginError::ArithmeticOverflow); },
            Some(v) => v,
        };
        let fee_rate: FixedVal = match rate_util.checked_mul_floor(self.loan_fee_rate) {
            None => { return Err(MarginError::ArithmeticOverflow); },
            Some(v) => v,
        };
        let borrow_growth: FixedVal = match rate.checked_scale_ceil(elapsed, YEAR_SECS) {
            None => { return Err(MarginError::ArithmeticOverflow); },
            Some(v) => v,
        };
        let deposit_growth: FixedVal = match deposit_rate.checked_scale_floor(elapsed, YEAR_SECS) {
            None => { return Err(MarginError::ArithmeticOverflow); },
            Some(v) => v,
        };
        let fee_growth: FixedVal = match fee_rate.checked_scale_floor(elapsed, YEAR_SECS) {
            None => { return Err(MarginError::ArithmeticOverflow); },
            Some(v) => v,
        };
        let one_plus_bg: FixedVal = match FixedVal::one().checked_add(borrow_growth) {
            None => { return Err(MarginError::ArithmeticOverflow); },
            Some(v) => v,
        };
        let one_plus_dg: FixedVal = match FixedVal::one().checked_add(deposit_growth) {
            None => { return Err(MarginError::ArithmeticOverflow); },
            Some(v) => v,
        };
        let new_borrow_index: FixedVal = match self.borrow_index.checked_mul_ceil(one_plus_bg) {
            None => { return Err(MarginError::ArithmeticOverflow); },
            Some(v) => v,
        };
        let new_deposit_index: FixedVal = match self.deposit_index.checked_mul_floor(one_plus_dg) {
            None => { return Err(MarginError::ArithmeticOverflow); },
            Some(v) => v,
        };
        let fee_native: FixedVal = match nd.checked_mul_floor(fee_growth) {
            None => { return Err(MarginError::ArithmeticOverflow); },
            Some(v) => v,
        };
        let new_fees: FixedVal = match self.collected_fees_native.checked_add(fee_native) {
            None => { return Err(MarginError::ArithmeticOverflow); },
            Some(v) => v,
        };
        proof {
            lemma_rate_nonneg(*self);
            lemma_growth_nonneg(self.borrow_rate_raw(), (now - self.last_updated) as int);
            lemma_growth_nonneg(self.deposit_rate_raw(), (now - self.last_updated) as int);
            lemma_index_grows(self.borrow_index.raw as int, self.borrow_growth_raw(now));
            lemma_index_grows(self.deposit_index.raw as int, self.deposit_growth_raw(now));
        }
        self.deposit_index = new_deposit_index;
        self.borrow_index = new_borrow_index;
        self.collected_fees_native = new_fees;
        self.last_updated = now;
        Ok(())
    }
}

/// Native value of an indexed balance: positive balances are deposits and
/// use the deposit index, negative balances are borrows and use the borrow
/// index. The floor rounding shrinks what the account owns and grows the
/// magnitude of what it owes.
pub open spec fn position_native_raw(bal: int, deposit_index: int, borrow_index: int) -> int {
    if bal >= 0 {
        fmul_raw(bal, deposit_index)
    } else {
        fmul_raw(bal, borrow_index)
    }
}

impl Bank {
    /// Target native value after applying a delta to a balance.
    pub open spec fn apply_new_native_raw(self, bal: int, delta: int) -> int {
        position_native_raw(bal, self.deposit_index.raw as int, self.borrow_index.raw as int)
            + delta
    }

    /// New indexed balance after a delta: the target native value converted
    /// back with the index matching its sign, rounded down.
    pub open spec fn apply_new_balance_raw(self, bal: int, delta: int) -> int {
        let nn = self.apply_new_native_raw(bal, delta);
        if nn >= 0 {
            fdivq_raw(nn, self.deposit_index.raw as int)
        } else {
            fdivq_raw(nn, self.borrow_index.raw as int)
        }
    }

    /// Total indexed deposits after moving a balance from its old to its new
    /// value.
    pub open spec fn deposits_total_after(self, old_bal: int, new_bal: int) -> int {
        self.indexed_total_deposits.raw - (if old_bal >= 0 {
            old_bal
        } else {
            0
        }) + (if new_bal >= 0 {
            new_bal
        } else {
            0
        })
    }

    /// Total indexed borrows after moving a balance from its old to its new
    /// value; the total carries borrow magnitudes.
    pub open spec fn borrows_total_after(self, old_bal: int, new_bal: int) -> int {
        self.indexed_total_borrows.raw + (if old_bal < 0 {
            old_bal
        } else {
            0
        }) - (if new_bal < 0 {
            new_bal
        } else {
            0
        })
    }

    /// Exactly when `apply_delta` succeeds.
    pub open spec fn apply_ok(self, bal: int, delta: int) -> bool {
        let nn = self.apply_new_native_raw(bal, delta);
        let nb = self.apply_new_balance_raw(bal, delta);
        &&& in_i128(
            position_native_raw(bal, self.deposit_index.raw as int, self.borrow_index.raw as int),
        )
        &&& in_i128(nn)
        &&& in_i128(nb)
        &&& in_i128(
            self.indexed_total_deposits.raw - (if bal >= 0 {
                bal
            } else {
                0
            }),
        )
        &&& in_i128(
            self.indexed_total_borrows.raw + (if bal < 0 {
                bal
            } else {
                0
            }),
        )
        &&& in_i128(self.deposits_total_after(bal, nb))
        &&& in_i128(self.borrows_total_after(bal, nb))
    }

    /// Applies a native-value delta to a position.
    ///
    /// The delta is converted to index units with the index matching the
    /// sign of the resulting native value; crossing zero therefore re-binds
    /// the position to the opposite index. The matching ledger total moves
    /// with the balance. The position deactivates when the target native
    /// value is within the dust threshold of zero and (re)activates
    /// otherwise; deactivation keeps the stored balance untouched. Returns
    /// whether the position is active afterwards. Any overflow surfaces as
    /// an arithmetic error and changes nothing.
    pub fn apply_delta(&mut self, pos: &mut crate::position::Position, delta: FixedVal) -> (r:
        Result<bool, MarginError>)
        requires
            old(self).wf(),
        ensures
            r is Ok <==> old(self).apply_ok(old(pos).indexed_balance.raw as int, delta.raw as int),
            r is Err ==> *final(self) == *old(self) && *final(pos) == *old(pos) && (r
                == Err::<bool, MarginError>(MarginError::ArithmeticOverflow)),
            r is Ok ==> final(pos).indexed_balance.raw == old(self).apply_new_balance_raw(
                old(pos).indexed_balance.raw as int,
                delta.raw as int,
            ),
            r is Ok ==> (final(pos).active <==> vstd::math::abs(
                old(self).apply_new_native_raw(old(pos).indexed_balance.raw as int, delta.raw as int),
            ) > old(self).dust_threshold.raw),
            r is Ok ==> final(pos).token_index == old(pos).token_index,
            r is Ok ==> final(self).indexed_total_deposits.raw == old(self).deposits_total_after(
                old(pos).indexed_balance.raw as int,
                final(pos).indexed_balance.raw as int,
            ),
            r is Ok ==> final(self).indexed_total_borrows.raw == old(self).borrows_total_after(
                old(pos).indexed_balance.raw as int,
                final(pos).indexed_balance.raw as int,
            ),
            r is Ok ==> *final(self) == (Bank {
                indexed_total_deposits: final(self).indexed_total_deposits,
                indexed_total_borrows: final(self).indexed_total_borrows,
                ..*old(self)
            }),
            r matches Ok(b) ==> b == final(pos).active,
            final(self).wf(),
    {
        let ob: FixedVal = pos.indexed_balance;
        let idx_old: FixedVal = if ob.raw >= 0 {
            self.deposit_index
        } else {
            self.borrow_index
        };
        let onv: FixedVal = match ob.checked_mul_floor(idx_old) {
            None => { return Err(MarginError::ArithmeticOverflow); },
            Some(v) => v,
        };
        let nn: FixedVal = match onv.checked_add(delta) {
            None => { return Err(MarginError::ArithmeticOverflow); },
            Some(v) => v,
        };
        let idx_new: FixedVal = if nn.raw >= 0 {
            self.deposit_index
        } else {
            self.borrow_index
        };
        let nb: FixedVal = match nn.checked_div_floor(idx_new) {
            None => { return Err(MarginError::ArithmeticOverflow); },
            Some(v) => v,
        };
        let mut td: FixedVal = self.indexed_total_deposits;
        let mut tb: FixedVal = self.indexed_total_borrows;
        if ob.raw >= 0 {
            td = match td.checked_sub(ob) {
                None => { return Err(MarginError::ArithmeticOverflow); },
                Some(v) => v,
            };
        } else {
            tb = match tb.checked_add(ob) {
                None => { return Err(MarginError::ArithmeticOverflow); },
                Some(v) => v,
            };
        }
        if nb.raw >= 0 {
            td = match td.checked_add(nb) {
                None => { return Err(MarginError::ArithmeticOverflow); },
                Some(v) => v,
            };
        } else {
            tb = match tb.checked_sub(nb) {
                None => { return Err(MarginError::ArithmeticOverflow); },
                Some(v) => v,
            };
        }
        let dust_mag: u128 = crate::fixnum::abs_mag(self.dust_threshold.raw);
        let active: bool = crate::fixnum::abs_mag(nn.raw) > dust_mag;
        pos.indexed_balance = nb;
        pos.active = active;
        self.indexed_total_deposits = td;
        self.indexed_total_borrows = tb;
        Ok(active)
    }
}

/// Interest-curve parameters for registration.
#[derive(Clone, Copy, Debug, PartialEq, Eq, Structural)]
pub struct InterestRateParams {
    pub util0: FixedVal,
    pub rate0: FixedVal,
    pub util1: FixedVal,
    pub rate1: FixedVal,
    pub max_rate: FixedVal,
}

impl InterestRateParams {
    /// A registrable curve: strictly increasing utilization control points
    /// inside the unit interval and ordered non-negative rates.
    pub open spec fn wf(self) -> bool {
        &&& 0 <= self.util0.raw < self.util1.raw < SCALE
        &&& 0 <= self.rate0.raw <= self.rate1.raw <= self.max_rate.raw
    }
}

/// Size of the persisted ledger record in bytes.
pub const BANK_RECORD_BYTES: usize = 352;

/// The persisted ledger record size matches the declared field layout — a
/// 16-byte name, four 8-byte keys, eighteen 16-byte fixed-point fields, the
/// 8-byte timestamp, the 2-byte asset index, the decimals byte and five
/// bytes of padding — and stays 8-byte aligned, for forward format
/// stability.
pub proof fn lemma_bank_record_layout()
    ensures
        BANK_RECORD_BYTES == 16 + 4 * 8 + 18 * 16 + 8 + 2 + 1 + 5,
        BANK_RECORD_BYTES % 8 == 0,
{
}

/// Pads a name into the fixed-width record field, or reports that it does
/// not fit. Succeeds exactly on names of at most 16 bytes.
pub fn fill16_from_str(name: &str) -> (r: Result<[u8; 16], MarginError>)
    ensures
        r is Ok <==> name.spec_bytes().len() <= 16,
        r matches Ok(a) ==> (forall|i: int|
            0 <= i < 16 ==> a@[i] == (if i < name.spec_bytes().len() {
                name.spec_bytes()[i]
            } else {
                0
            })),
        r is Err ==> r == Err::<[u8; 16], MarginError>(MarginError::NameTooLong),
{
    let bytes: Vec<u8> = name.as_bytes_vec();
    if bytes.len() > 16 {
        return Err(MarginError::NameTooLong);
    }
    let mut out: Vec<u8> = Vec::new();
    let mut i: usize = 0;
    while i < 16
        invariant
            bytes@ == name.spec_bytes(),
            bytes@.len() <= 16,
            i <= 16,
            out@.len() == i,
            forall|j: int|
                0 <= j < i ==> out@[j] == (if j < bytes@.len() {
                    bytes@[j]
                } else {
                    0
                }),
        decreases 16 - i,
    {
        if i < bytes.len() {
            out.push(bytes[i]);
        } else {
            out.push(0);
        }
        i = i + 1;
    }
    let arr: [u8; 16] = [out[0], out[1], out[2], out[3], out[4], out[5], out[6], out[7], out[8],
        out[9], out[10], out[11], out[12], out[13], out[14], out[15]];
    Ok(arr)
}

/// Registers a new asset: creates its ledger record with both indices at
/// the starting value and empty totals, and the registry record pointing at
/// the bank, vault and oracle. Fails exactly when the name does not fit the
/// record field.
#[allow(clippy::too_many_arguments)]
pub fn token_register(
    group: u64,
    token_index: u16,
    name: &str,
    interest_rate_params: InterestRateParams,
    loan_fee_rate: FixedVal,
    loan_origination_fee_rate: FixedVal,
    maint_asset_weight: FixedVal,
    init_asset_weight: FixedVal,
    maint_liab_weight: FixedVal,
    init_liab_weight: FixedVal,
    liquidation_fee: FixedVal,
    dust_threshold: FixedVal,
    mint: u64,
    bank_key: u64,
    vault: u64,
    oracle: u64,
    address_lookup_table: u64,
    now: i64,
    mint_decimals: u8,
) -> (r: Result<(Bank, crate::mint_info::MintInfo), MarginError>)
    requires
        interest_rate_params.wf(),
        0 <= loan_fee_rate.raw <= SCALE,
        0 <= loan_origination_fee_rate.raw,
        0 <= dust_threshold.raw,
    ensures
        r is Ok <==> name.spec_bytes().len() <= 16,
        r is Err ==> r == Err::<(Bank, crate::mint_info::MintInfo), MarginError>(
            MarginError::NameTooLong,
        ),
        r matches Ok((bank, mint_info)) ==> bank.wf() && bank.group == group && bank.mint == mint
            && bank.vault == vault && bank.oracle == oracle && bank.deposit_index.raw
            == INDEX_START_RAW && bank.borrow_index.raw == INDEX_START_RAW
            && bank.indexed_total_deposits.raw == 0 && bank.indexed_total_borrows.raw == 0
            && bank.last_updated == now && bank.util0 == interest_rate_params.util0 && bank.rate0
            == interest_rate_params.rate0 && bank.util1 == interest_rate_params.util1 && bank.rate1
            == interest_rate_params.rate1 && bank.max_rate == interest_rate_params.max_rate
            && bank.collected_fees_native.raw == 0 && bank.loan_origination_fee_rate
            == loan_origination_fee_rate && bank.loan_fee_rate == loan_fee_rate
            && bank.maint_asset_weight == maint_asset_weight && bank.init_asset_weight
            == init_asset_weight && bank.maint_liab_weight == maint_liab_weight
            && bank.init_liab_weight == init_liab_weight && bank.liquidation_fee == liquidation_fee
            && bank.dust_threshold == dust_threshold && bank.token_index == token_index
            && bank.mint_decimals == mint_decimals,
        r matches Ok((bank, mint_info)) ==> mint_info.group == group && mint_info.mint == mint
            && mint_info.banks@[0] == bank_key && (forall|i: int|
            1 <= i < 6 ==> mint_info.banks@[i] == 0) && mint_info.vaults@[0] == vault && (forall|
            i: int,
        |
            1 <= i < 6 ==> mint_info.vaults@[i] == 0) && mint_info.oracle == oracle
            && mint_info.address_lookup_table == address_lookup_table && mint_info.token_index
            == token_index && mint_info.address_lookup_table_bank_index == 0
            && mint_info.address_lookup_table_oracle_index == 1,
{
    let name_arr: [u8; 16] = match fill16_from_str(name) {
        Err(e) => { return Err(e); },
        Ok(a) => a,
    };
    let bank = Bank {
        name: name_arr,
        group,
        mint,
        vault,
        oracle,
        deposit_index: FixedVal { raw: INDEX_START_RAW },
        borrow_index: FixedVal { raw: INDEX_START_RAW },
        indexed_total_deposits: FixedVal { raw: 0 },
        indexed_total_borrows: FixedVal { raw: 0 },
        last_updated: now,
        util0: interest_rate_params.util0,
        rate0: interest_rate_params.rate0,
        util1: interest_rate_params.util1,
        rate1: interest_rate_params.rate1,
        max_rate: interest_rate_params.max_rate,
        collected_fees_native: FixedVal { raw: 0 },
        loan_origination_fee_rate,
        loan_fee_rate,
        maint_asset_weight,
        init_asset_weight,
        maint_liab_weight,
        init_liab_weight,
        liquidation_fee,
        dust_threshold,
        token_index,
        mint_decimals,
    };
    let mint_info = crate::mint_info::MintInfo {
        group,
        mint,
        banks: [bank_key, 0, 0, 0, 0, 0],
        vaults: [vault, 0, 0, 0, 0, 0],
        oracle,
        address_lookup_table,
        token_index,
        address_lookup_table_bank_index: 0,
        address_lookup_table_oracle_index: 1,
        reserved: [0, 0, 0, 0],
    };
    Ok((bank, mint_info))
}

/// The sign of a floor-rounded product with an index of at least one always
/// matches the sign of the indexed amount.
pub proof fn lemma_native_sign(bal: int, idx: int)
    requires
        idx >= SCALE,
    ensures
        bal > 0 ==> fmul_raw(bal, idx) > 0,
        bal == 0 ==> fmul_raw(bal, idx) == 0,
        bal < 0 ==> fmul_raw(bal, idx) < 0,
{
    if bal > 0 {
        assert(bal * idx >= idx) by (nonlinear_arith)
            requires
                bal >= 1,
                idx > 0,
        ;
        vstd::arithmetic::div_mod::lemma_div_by_self(SCALE as int);
        vstd::arithmetic::div_mod::lemma_div_is_ordered(SCALE as int, bal * idx, SCALE as int);
    } else if bal == 0 {
        assert(bal * idx == 0) by (nonlinear_arith)
            requires
                bal == 0,
        ;
        vstd::arithmetic::div_mod::lemma_div_of0(SCALE as int);
    } else {
        assert(bal * idx <= -(SCALE as int)) by (nonlinear_arith)
            requires
                bal <= -1,
                idx >= SCALE,
        ;
        vstd::arithmetic::div_mod::lemma_mod_self_0(SCALE as int);
        vstd::arithmetic::div_mod::lemma_div_by_self(SCALE as int);
        crate::fixnum::lemma_div_neg(SCALE as int, SCALE as int);
        vstd::arithmetic::div_mod::lemma_div_is_ordered(bal * idx, -(SCALE as int), SCALE as int);
    }
}

/// On a well-formed ledger record the native value of a position and its
/// indexed balance always carry the same sign, and the native value is zero
/// exactly when the balance is.
pub proof fn lemma_position_native_sign(b: Bank, bal: int)
    requires
        b.wf(),
    ensures
        bal > 0 ==> position_native_raw(bal, b.deposit_index.raw as int, b.borrow_index.raw as int)
            > 0,
        bal == 0 ==> position_native_raw(bal, b.deposit_index.raw as int, b.borrow_index.raw as int)
            == 0,
        bal < 0 ==> position_native_raw(bal, b.deposit_index.raw as int, b.borrow_index.raw as int)
            < 0,
{
    if bal >= 0 {
        lemma_native_sign(bal, b.deposit_index.raw as int);
    } else {
        lemma_native_sign(bal, b.borrow_index.raw as int);
    }
}

/// Re-binding is sign-correct: a delta that lands the target native value
/// below zero yields a strictly negative balance bound to the borrow index,
/// and one that lands it at or above zero yields a non-negative balance
/// bound to the deposit index.
pub proof fn lemma_rebind_sign(b: Bank, bal: int, delta: int)
    requires
        b.wf(),
    ensures
        b.apply_new_native_raw(bal, delta) < 0 ==> b.apply_new_balance_raw(bal, delta) < 0,
        b.apply_new_native_raw(bal, delta) >= 0 ==> b.apply_new_balance_raw(bal, delta) >= 0,
{
    let nn = b.apply_new_native_raw(bal, delta);
    if nn < 0 {
        let idx = b.borrow_index.raw as int;
        assert(nn * SCALE <= -1) by (nonlinear_arith)
            requires
                nn <= -1,
                SCALE >= 1,
        ;
        vstd::arithmetic::div_mod::lemma_fundamental_div_mod_converse(-1, idx, -1, idx - 1);
        vstd::arithmetic::div_mod::lemma_div_is_ordered(nn * SCALE, -1, idx);
    } else {
        vstd::arithmetic::mul::lemma_mul_nonnegative(nn, SCALE as int);
        vstd::arithmetic::div_mod::lemma_div_pos_is_pos(nn * SCALE, b.deposit_index.raw as int);
    }
}

/// Products of non-negative factors keep floor-rounded fixed-point products
/// and quotients non-negative.
pub proof fn lemma_fmul_nonneg(a: int, b: int)
    requires
        a >= 0,
        b >= 0,
    ensures
        fmul_raw(a, b) >= 0,
{
    vstd::arithmetic::mul::lemma_mul_nonnegative(a, b);
    vstd::arithmetic::div_mod::lemma_div_pos_is_pos(a * b, SCALE as int);
}

/// A quotient of a non-negative numerator by a positive denominator is
/// non-negative after scaling.
pub proof fn lemma_fdivq_nonneg(a: int, b: int)
    requires
        a >= 0,
        b > 0,
    ensures
        fdivq_raw(a, b) >= 0,
{
    vstd::arithmetic::div_mod::lemma_div_pos_is_pos(a * (SCALE as int), b);
}

/// On a well-formed record the utilization and every derived rate are
/// non-negative.
pub proof fn lemma_rate_nonneg(b: Bank)
    requires
        b.wf(),
    ensures
        b.utilization_raw() >= 0,
        b.borrow_rate_raw() >= 0,
        b.deposit_rate_raw() >= 0,
        b.fee_rate_raw() >= 0,
{
    if b.native_total_deposits_raw() > 0 && b.native_total_borrows_raw() > 0 {
        lemma_fdivq_nonneg(b.native_total_borrows_raw(), b.native_total_deposits_raw());
    }
    let u = b.utilization_raw();
    if u <= b.util0.raw {
    } else if u < b.util1.raw {
        lemma_fdivq_nonneg(u - b.util0.raw, b.util1.raw - b.util0.raw);
        lemma_fmul_nonneg(
            fdivq_raw(u - b.util0.raw, b.util1.raw - b.util0.raw),
            b.rate1.raw - b.rate0.raw,
        );
    } else if u < SCALE {
        lemma_fdivq_nonneg(u - b.util1.raw, SCALE - b.util1.raw);
        lemma_fmul_nonneg(
            fdivq_raw(u - b.util1.raw, SCALE - b.util1.raw),
            b.max_rate.raw - b.rate1.raw,
        );
    }
    lemma_fmul_nonneg(b.borrow_rate_raw(), u);
    lemma_fmul_nonneg(fmul_raw(b.borrow_rate_raw(), u), SCALE - b.loan_fee_rate.raw);
    lemma_fmul_nonneg(fmul_raw(b.borrow_rate_raw(), u), b.loan_fee_rate.raw as int);
}

/// A non-negative rate over a non-negative span yields non-negative growth
/// under either rounding.
pub proof fn lemma_growth_nonneg(rate: int, elapsed: int)
    requires
        rate >= 0,
        elapsed >= 0,
    ensures
        cdiv(rate * elapsed, YEAR_SECS as int) >= 0,
        fdiv(rate * elapsed, YEAR_SECS as int) >= 0,
{
    vstd::arithmetic::mul::lemma_mul_nonnegative(rate, elapsed);
    vstd::arithmetic::div_mod::lemma_div_pos_is_pos(rate * elapsed, YEAR_SECS as int);
    crate::fixnum::lemma_cdiv_nonneg(rate * elapsed, YEAR_SECS as int);
}

/// Compounding a non-negative index by a non-negative growth factor never
/// shrinks it, under either rounding.
pub proof fn lemma_index_grows(idx: int, growth: int)
    requires
        idx >= 0,
        growth >= 0,
    ensures
        cmul_raw(idx, SCALE + growth) >= idx,
        fmul_raw(idx, SCALE + growth) >= idx,
{
    assert(idx * (SCALE + growth) >= idx * (SCALE as int)) by (nonlinear_arith)
        requires
            idx >= 0,
            growth >= 0,
    ;
    vstd::arithmetic::div_mod::lemma_div_by_multiple(idx, SCALE as int);
    vstd::arithmetic::div_mod::lemma_div_is_ordered(
        idx * (SCALE as int),
        idx * (SCALE + growth),
        SCALE as int,
    );
    vstd::arithmetic::mul::lemma_mul_nonnegative(idx, SCALE + growth);
    crate::fixnum::lemma_cdiv_nonneg(idx * (SCALE + growth), SCALE as int);
}

} // verus!
