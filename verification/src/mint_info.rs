//! Registry record that tells a client which banks, vault and oracle belong
//! to a mint, and on which address lookup table they can be found.

use vstd::prelude::*;

verus! {

use crate::MarginError;

/// Maximum number of banks per mint.
pub const MAX_BANKS: usize = 6;

/// Size of the persisted record in bytes.
pub const MINT_INFO_RECORD_BYTES: usize = 136;

/// Which accounts are relevant for one registered mint. Unused bank and
/// vault slots hold the zero key.
#[derive(Clone, Copy, Debug)]
pub struct MintInfo {
    pub group: u64,
    pub mint: u64,
    pub banks: [u64; 6],
    pub vaults: [u64; 6],
    pub oracle: u64,
    pub address_lookup_table: u64,
    pub token_index: u16,
    pub address_lookup_table_bank_index: u8,
    pub address_lookup_table_oracle_index: u8,
    pub reserved: [u8; 4],
}

/// The persisted record size matches the declared field layout and stays
/// 8-byte aligned, so the on-disk format is stable.
pub proof fn lemma_mint_info_record_layout()
    ensures
        MINT_INFO_RECORD_BYTES == MAX_BANKS * 2 * 8 + 4 * 8 + 2 + 1 + 1 + 4,
        MINT_INFO_RECORD_BYTES % 8 == 0,
{
}

impl MintInfo {
    /// The bank used for health computations.
    pub fn first_bank(&self) -> (r: u64)
        ensures
            r == self.banks@[0],
    {
        self.banks[0]
    }

    /// The vault matching the first bank.
    pub fn first_vault(&self) -> (r: u64)
        ensures
            r == self.vaults@[0],
    {
        self.vaults[0]
    }

    /// Number of banks in use: the position of the first zero key, or the
    /// full capacity when every slot is taken.
    pub fn num_banks(&self) -> (r: usize)
        ensures
            r <= MAX_BANKS,
            forall|i: int| 0 <= i < r ==> self.banks@[i] != 0,
            r < MAX_BANKS ==> self.banks@[r as int] == 0,
    {
        let mut i: usize = 0;
        while i < MAX_BANKS
            invariant
                i <= MAX_BANKS,
                forall|j: int| 0 <= j < i ==> self.banks@[j] != 0,
            decreases MAX_BANKS - i,
        {
            if self.banks[i] == 0 {
                return i;
            }
            i = i + 1;
        }
        MAX_BANKS
    }

    /// The banks in use, in order.
    pub fn banks(&self) -> (r: Vec<u64>)
        ensures
            r@.len() <= MAX_BANKS,
            forall|i: int| 0 <= i < r@.len() ==> r@[i] == self.banks@[i] && r@[i] != 0,
            r@.len() < MAX_BANKS ==> self.banks@[r@.len() as int] == 0,
    {
        let n = self.num_banks();
        let mut out: Vec<u64> = Vec::new();
        let mut i: usize = 0;
        while i < n
            invariant
                n <= MAX_BANKS,
                i <= n,
                out@.len() == i,
                forall|j: int| 0 <= j < n ==> self.banks@[j] != 0,
                n < MAX_BANKS ==> self.banks@[n as int] == 0,
                forall|j: int| 0 <= j < i ==> out@[j] == self.banks@[j],
            decreases n - i,
        {
            out.push(self.banks[i]);
            i = i + 1;
        }
        out
    }

    /// Checks that a supplied account list names exactly the banks in use,
    /// in order.
    pub fn verify_banks_ais(&self, all_bank_keys: &Vec<u64>) -> (r: Result<(), MarginError>)
        ensures
            r is Ok <==> {
                let n = all_bank_keys@.len();
                &&& n <= MAX_BANKS
                &&& (forall|i: int| 0 <= i < n ==> all_bank_keys@[i] == self.banks@[i])
                &&& (forall|i: int| 0 <= i < n ==> self.banks@[i] != 0)
                &&& (n < MAX_BANKS ==> self.banks@[n as int] == 0)
            },
            r is Err ==> r == Err::<(), MarginError>(MarginError::InvalidBankList),
    {
        let banks = self.banks();
        if banks.len() != all_bank_keys.len() {
            proof {
                // Two in-use prefixes of the same key array with the same
                // stopping rule must have the same length.
                let m = all_bank_keys@.len() as int;
                let nb = banks@.len() as int;
                if m <= MAX_BANKS && (forall|i: int| 0 <= i < m ==> #[trigger] self.banks@[i] != 0)
                    && (m < MAX_BANKS ==> self.banks@[m] == 0) {
                    if m < nb {
                        assert(banks@[m] == self.banks@[m] && banks@[m] != 0);
                    } else {
                        assert(nb < m ==> self.banks@[nb] == 0);
                        assert(self.banks@[nb] != 0);
                    }
                    assert(false);
                }
            }
            return Err(MarginError::InvalidBankList);
        }
        let mut i: usize = 0;
        let n = banks.len();
        while i < n
            invariant
                n == banks.len() == all_bank_keys.len(),
                i <= n,
                banks@.len() <= MAX_BANKS,
                forall|j: int| 0 <= j < banks@.len() ==> banks@[j] == self.banks@[j] && banks@[j]
                    != 0,
                banks@.len() < MAX_BANKS ==> self.banks@[banks@.len() as int] == 0,
                forall|j: int| 0 <= j < i ==> all_bank_keys@[j] == self.banks@[j],
            decreases n - i,
        {
            if all_bank_keys[i] != banks[i] {
                return Err(MarginError::InvalidBankList);
            }
            i = i + 1;
        }
        proof {
            let m = all_bank_keys@.len() as int;
            assert(forall|j: int| 0 <= j < m ==> (#[trigger] self.banks@[j]) == banks@[j]);
            assert(forall|j: int| 0 <= j < m ==> #[trigger] self.banks@[j] != 0);
            assert(m < MAX_BANKS ==> self.banks@[m] == 0);
        }
        Ok(())
    }
}

} // verus!
