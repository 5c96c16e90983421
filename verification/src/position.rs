//! Per-account, per-asset balance records.
//!
//! An account owns a fixed number of position slots. A slot is claimed when
//! an asset is first used and freed again when the balance settles back to
//! (near-)zero; the stored balance itself is never rewritten by
//! deactivation, only the flag.

use vstd::prelude::*;

verus! {

use crate::MarginError;
use crate::fixnum::FixedVal;
use crate::fixnum::in_i128;
use crate::ledger::Bank;
use crate::ledger::position_native_raw;

/// Number of position slots per account.
pub const MAX_TOKEN_POSITIONS: usize = 16;

/// One asset balance of an account, in index units of its ledger asset.
#[derive(Clone, Copy, Debug, PartialEq, Eq, Structural)]
pub struct Position {
    /// The ledger asset this slot is bound to.
    pub token_index: u16,
    /// Whether the slot is in use.
    pub active: bool,
    /// Balance in index units; positive for deposits, negative for borrows.
    pub indexed_balance: FixedVal,
}

impl Position {
    /// An unclaimed slot.
    pub fn inactive() -> (r: Position)
        ensures
            r == (Position { token_index: 0, active: false, indexed_balance: FixedVal { raw: 0 } }),
    {
        Position { token_index: 0, active: false, indexed_balance: FixedVal { raw: 0 } }
    }

    /// Native value of this position under its ledger record: the indexed
    /// balance times the index matching its sign, rounded toward the
    /// ledger's favor.
    pub fn native(&self, bank: &Bank) -> (r: Result<FixedVal, MarginError>)
        requires
            bank.wf(),
        ensures
            r is Ok <==> in_i128(
                position_native_raw(
                    self.indexed_balance.raw as int,
                    bank.deposit_index.raw as int,
                    bank.borrow_index.raw as int,
                ),
            ),
            r matches Ok(v) ==> v.raw == position_native_raw(
                self.indexed_balance.raw as int,
                bank.deposit_index.raw as int,
                bank.borrow_index.raw as int,
            ),
            r is Err ==> r == Err::<FixedVal, MarginError>(MarginError::ArithmeticOverflow),
    {
        let idx: FixedVal = if self.indexed_balance.raw >= 0 {
            bank.deposit_index
        } else {
            bank.borrow_index
        };
        match self.indexed_balance.checked_mul_floor(idx) {
            None => Err(MarginError::ArithmeticOverflow),
            Some(v) => Ok(v),
        }
    }
}

/// Number of active slots in a prefix-closed view of the slot sequence.
pub open spec fn count_active(s: Seq<Position>) -> nat
    decreases s.len(),
{
    if s.len() == 0 {
        0
    } else {
        count_active(s.drop_last()) + (if s.last().active {
            1nat
        } else {
            0nat
        })
    }
}

/// A bounded, sparse collection of positions owned by one principal.
#[derive(Clone, Debug)]
pub struct Account {
    /// The account's owner.
    pub owner: u64,
    /// The fixed array of slots.
    pub positions: Vec<Position>,
}

impl Account {
    /// Well-formedness: the slot array has its fixed size.
    pub open spec fn wf(self) -> bool {
        self.positions.len() == MAX_TOKEN_POSITIONS
    }

    /// A fresh account: all slots free.
    pub fn new(owner: u64) -> (r: Account)
        ensures
            r.wf(),
            r.owner == owner,
            forall|i: int| 0 <= i < r.positions.len() ==> !(#[trigger] r.positions[i]).active,
    {
        let mut positions: Vec<Position> = Vec::new();
        let mut i: usize = 0;
        while i < MAX_TOKEN_POSITIONS
            invariant
                i <= MAX_TOKEN_POSITIONS,
                positions.len() == i,
                forall|j: int| 0 <= j < i ==> !(#[trigger] positions[j]).active,
            decreases MAX_TOKEN_POSITIONS - i,
        {
            positions.push(Position::inactive());
            i = i + 1;
        }
        Account { owner, positions }
    }

    /// Whether slot `k` is claimed and bound to the given asset.
    pub open spec fn slot_bound_to(self, k: int, token_index: u16) -> bool {
        self.positions[k].active && self.positions[k].token_index == token_index
    }

    /// Whether some slot is claimed and bound to the given asset.
    pub open spec fn has_slot_for(self, token_index: u16) -> bool {
        exists|k: int| 0 <= k < self.positions.len() && self.slot_bound_to(k, token_index)
    }

    /// Whether every slot is claimed.
    pub open spec fn all_slots_taken(self) -> bool {
        forall|k: int| 0 <= k < self.positions.len() ==> (#[trigger] self.positions[k]).active
    }

    /// Whether at least two slots are still free.
    pub open spec fn has_two_free_slots(self) -> bool {
        exists|k1: int, k2: int|
            0 <= k1 < k2 < self.positions.len() && !(#[trigger] self.positions[k1]).active && !(
            #[trigger] self.positions[k2]).active
    }

    /// Whether the account can host positions for both assets: each asset
    /// either already has its slot or a free slot remains for it, counting
    /// a shared slot once when the assets coincide.
    pub open spec fn can_host_pair(self, t_in: u16, t_out: u16) -> bool {
        if self.has_slot_for(t_in) {
            self.has_slot_for(t_out) || !self.all_slots_taken()
        } else if self.all_slots_taken() {
            false
        } else {
            t_in == t_out || self.has_slot_for(t_out) || self.has_two_free_slots()
        }
    }

    /// Ensures a position bound to the asset exists: returns the slot of an
    /// already-claimed position, or claims the first free slot at a zero
    /// balance, or fails with `AccountFull` when every slot is taken.
    pub fn ensure_token_position(&mut self, token_index: u16) -> (r: Result<usize, MarginError>)
        ensures
            final(self).positions.len() == old(self).positions.len(),
            r is Err <==> !old(self).has_slot_for(token_index) && old(self).all_slots_taken(),
            r is Err ==> *final(self) == *old(self) && (r == Err::<usize, MarginError>(
                MarginError::AccountFull,
            )),
            r matches Ok(i) ==> 0 <= i < final(self).positions.len() && final(self).slot_bound_to(
                i as int,
                token_index,
            ),
            r matches Ok(i) ==> (forall|k: int|
                0 <= k < final(self).positions.len() && k != i ==> final(self).positions[k] == old(self).positions[k]),
            r matches Ok(i) ==> (old(self).slot_bound_to(i as int, token_index) ==> *final(self)
                == *old(self) && (forall|k: int|
                0 <= k < i ==> !old(self).slot_bound_to(k, token_index))),
            r matches Ok(i) ==> (!old(self).slot_bound_to(i as int, token_index) ==> !old(self).has_slot_for(token_index) && !old(self).positions[i as int].active && (forall|k: int|
                0 <= k < i ==> (#[trigger] old(self).positions[k]).active) && final(self).positions[i as int] == (Position {
                token_index,
                active: true,
                indexed_balance: FixedVal { raw: 0 },
            })),
    {
        let n = self.positions.len();
        let mut i: usize = 0;
        while i < n
            invariant
                *self == *old(self),
                n == self.positions.len(),
                i <= n,
                forall|k: int|
                    0 <= k < i ==> !((#[trigger] self.positions[k]).active
                        && self.positions[k].token_index == token_index),
            decreases n - i,
        {
            let p = self.positions[i];
            if p.active && p.token_index == token_index {
                proof {
                    assert(self.slot_bound_to(i as int, token_index));
                    assert(self.has_slot_for(token_index));
                }
                return Ok(i);
            }
            i = i + 1;
        }
        let mut j: usize = 0;
        while j < n
            invariant
                *self == *old(self),
                n == self.positions.len(),
                j <= n,
                forall|k: int| 0 <= k < j ==> (#[trigger] self.positions[k]).active,
                forall|k: int|
                    0 <= k < n ==> !((#[trigger] self.positions[k]).active
                        && self.positions[k].token_index == token_index),
            decreases n - j,
        {
            if !self.positions[j].active {
                let fresh = Position { token_index, active: true, indexed_balance: FixedVal {
                    raw: 0,
                } };
                self.positions.set(j, fresh);
                return Ok(j);
            }
            j = j + 1;
        }
        Err(MarginError::AccountFull)
    }

    /// Number of slots currently in use.
    pub fn num_active(&self) -> (r: usize)
        ensures
            r == count_active(self.positions@),
    {
        let n = self.positions.len();
        let mut cnt: usize = 0;
        let mut i: usize = 0;
        while i < n
            invariant
                n == self.positions.len(),
                i <= n,
                cnt == count_active(self.positions@.take(i as int)),
                cnt <= i,
            decreases n - i,
        {
            proof {
                assert(self.positions@.take(i + 1).drop_last() =~= self.positions@.take(i as int));
            }
            if self.positions[i].active {
                cnt = cnt + 1;
            }
            i = i + 1;
        }
        proof {
            assert(self.positions@.take(n as int) =~= self.positions@);
        }
        cnt
    }
}

} // verus!
