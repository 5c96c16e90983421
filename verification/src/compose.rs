//! The swap composer: builds the transaction that brackets an external
//! exchange inside the flash-loan envelope.
//!
//! The action provider hands back an opaque, untrusted instruction stream;
//! each instruction carries the tag of its acting authority. A fixed
//! allow-list classifies every instruction as setup or action, the implicit
//! native-asset wrapping is stripped, and the action block is spliced
//! between the envelope's begin and end, with setup kept outside.

use vstd::prelude::*;

verus! {

use crate::MarginError;
use crate::fixnum::cdiv;
use crate::flash_loan::FlashLoanType;
use crate::numstr::dec_of;
use crate::numstr::dec_val;
use crate::numstr::parse_u64_dec;
use crate::numstr::parseable_u64;
use crate::numstr::u64_to_dec;
use crate::position::Account;
use vstd::seq_lib::lemma_seq_contains_after_push;

/// A provider quote, amounts as decimal strings as they come off the wire.
#[derive(Clone, Debug)]
pub struct QuoteResponse {
    pub in_amount: Option<String>,
    pub out_amount: String,
    pub fee_amount: String,
    pub fee_mint: String,
    pub fee_pct: String,
    pub swap_src: String,
}

/// The body of an action request to the provider.
#[derive(Clone, Debug)]
pub struct SwapRequest {
    pub amount: String,
    pub quoted_amount: String,
    pub input: String,
    pub mode: String,
    pub output_lst_mint: String,
    pub signer: String,
    pub swap_src: String,
}

/// The provider's action response: an encoded unsigned transaction blob.
#[derive(Clone, Debug)]
pub struct SanctumSwapResponse {
    pub tx: String,
}

/// The query parameters of a quote request.
#[derive(Clone, Debug)]
pub struct QuoteQuery {
    pub input: String,
    pub output_lst_mint: String,
    pub amount: String,
}

/// One low-level instruction of the provider's stream: the tag of its
/// acting authority and its opaque payload.
#[derive(Clone, Debug, PartialEq, Eq)]
pub struct ProgIx {
    pub program: u64,
    pub data: Vec<u8>,
}

/// Mathematical image of a provider instruction.
pub struct ProgIxView {
    pub program: u64,
    pub data: Seq<u8>,
}

impl View for ProgIx {
    type V = ProgIxView;

    open spec fn view(&self) -> ProgIxView {
        ProgIxView { program: self.program, data: self.data@ }
    }
}

impl ProgIx {
    /// A structural copy.
    pub fn duplicate(&self) -> (r: ProgIx)
        ensures
            r@ == self@,
    {
        let r = ProgIx { program: self.program, data: self.data.clone() };
        proof {
            assert(r.data@ =~= self.data@);
        }
        r
    }
}

/// One instruction of the composed transaction.
#[derive(Clone, Debug, PartialEq, Eq)]
pub enum ComposedIx {
    /// An instruction passed through from the provider.
    Provider(ProgIx),
    /// Idempotent creation of the account that receives the loaned funds.
    EnsureFundingAccount { owner: u64, mint: u64 },
    /// The opening half of the envelope.
    FlashLoanBegin { loan_amounts: Vec<u64> },
    /// The closing half of the envelope.
    FlashLoanEnd { num_loans: u8, flash_loan_type: FlashLoanType },
}

/// Mathematical image of a composed instruction.
pub enum ComposedIxView {
    Provider(ProgIxView),
    EnsureFundingAccount { owner: u64, mint: u64 },
    FlashLoanBegin { loan_amounts: Seq<u64> },
    FlashLoanEnd { num_loans: u8, flash_loan_type: FlashLoanType },
}

impl View for ComposedIx {
    type V = ComposedIxView;

    open spec fn view(&self) -> ComposedIxView {
        match self {
            ComposedIx::Provider(ix) => ComposedIxView::Provider(ix@),
            ComposedIx::EnsureFundingAccount { owner, mint } => (
            ComposedIxView::EnsureFundingAccount { owner: *owner, mint: *mint }),
            ComposedIx::FlashLoanBegin { loan_amounts } => (ComposedIxView::FlashLoanBegin {
                loan_amounts: loan_amounts@,
            }),
            ComposedIx::FlashLoanEnd { num_loans, flash_loan_type } => (
            ComposedIxView::FlashLoanEnd {
                num_loans: *num_loans,
                flash_loan_type: *flash_loan_type,
            }),
        }
    }
}

/// View of a composed instruction sequence.
pub open spec fn composed_view(s: Seq<ComposedIx>) -> Seq<ComposedIxView> {
    s.map_values(|ix: ComposedIx| ix@)
}

/// View of a provider instruction sequence.
pub open spec fn prog_view(s: Seq<ProgIx>) -> Seq<ProgIxView> {
    s.map_values(|ix: ProgIx| ix@)
}

/// The assembled, unsigned transaction bundle.
#[derive(Debug)]
pub struct TransactionBuilder {
    pub instructions: Vec<ComposedIx>,
    pub address_lookup_tables: Vec<u64>,
    pub payer: u64,
    pub signers: Vec<u64>,
}

/// The floor a realized output must meet for a quote under a slippage
/// tolerance in basis points: the estimate scaled by the tolerated share,
/// rounded up in the protocol's favor. A tolerance of 100% or more asks
/// for nothing.
pub open spec fn spec_min_output(estimated_output: u64, max_slippage_bps: u64) -> int {
    if max_slippage_bps >= 10000 {
        0
    } else {
        cdiv(estimated_output * (10000 - max_slippage_bps), 10000)
    }
}

/// Computes the output floor for a quoted amount under a slippage
/// tolerance.
pub fn min_output(estimated_output: u64, max_slippage_bps: u64) -> (r: u64)
    ensures
        r == spec_min_output(estimated_output, max_slippage_bps),
        r <= estimated_output,
{
    if max_slippage_bps >= 10000 {
        return 0;
    }
    let keep: u128 = (10000 - max_slippage_bps) as u128;
    proof {
        assert(estimated_output * keep <= u64::MAX * 10000) by (nonlinear_arith)
            requires
                keep <= 10000,
                0 <= estimated_output <= u64::MAX,
        ;
    }
    let num: u128 = (estimated_output as u128) * keep;
    let q: u128 = num / 10000;
    let rem: u128 = num % 10000;
    let ceil: u128 = if rem == 0 {
        q
    } else {
        q + 1
    };
    proof {
        vstd::arithmetic::div_mod::lemma_fundamental_div_mod(num as int, 10000);
        crate::fixnum::lemma_cdiv_nonneg(num as int, 10000);
        // The ceiling of the scaled estimate never exceeds the estimate.
        assert(num <= estimated_output * 10000) by (nonlinear_arith)
            requires
                num == estimated_output * keep,
                keep <= 10000,
                estimated_output >= 0,
        ;
        vstd::arithmetic::div_mod::lemma_div_is_ordered(
            num as int,
            (estimated_output * 10000) as int,
            10000,
        );
        vstd::arithmetic::div_mod::lemma_div_by_multiple(estimated_output as int, 10000);
        if rem != 0 {
            vstd::arithmetic::div_mod::lemma_mod_multiples_basic(estimated_output as int, 10000);
        }
    }
    ceil as u64
}

/// The composer for one provider: the account context and the explicit
/// allow-list data used to classify and strip the provider's instructions.
#[derive(Clone, Debug)]
pub struct Sanctum {
    /// The acting account's owner, also payer and sole signer.
    pub owner: u64,
    /// The margin account the envelope operates on.
    pub account: u64,
    /// The shared ledger group.
    pub group: u64,
    /// Setup authorities: asset-account creation.
    pub ata_program: u64,
    /// Setup authorities: fee-token bookkeeping.
    pub token_program: u64,
    /// Setup authorities: compute-budget directives.
    pub compute_budget_program: u64,
    /// Authority of implicit native-asset transfers, stripped out.
    pub system_program: u64,
    /// Payload of the native-asset sync instruction, stripped out.
    pub sync_native_data: Vec<u8>,
    /// Lookup tables registered for the account, merged into every bundle.
    pub registered_lookup_tables: Vec<u64>,
    /// Bound on each provider call, in milliseconds; used by the transport.
    pub timeout_millis: u64,
}

impl Sanctum {
    /// Whether an authority tag is on the setup allow-list.
    pub open spec fn spec_is_setup(self, program: u64) -> bool {
        program == self.ata_program || program == self.token_program || program
            == self.compute_budget_program
    }

    /// Classifies an authority tag against the setup allow-list.
    pub fn is_setup_ix(&self, program: u64) -> (r: bool)
        ensures
            r == self.spec_is_setup(program),
    {
        program == self.ata_program || program == self.token_program || program
            == self.compute_budget_program
    }

    /// Validates a swap request and produces the quote query: same-asset
    /// requests are rejected here, before any network interaction, and both
    /// assets get their positions ensured on the account.
    pub fn quote_request(
        &self,
        account: &mut Account,
        input_mint: u64,
        output_mint: u64,
        amount: u64,
        input_token_index: u16,
        output_token_index: u16,
    ) -> (r: Result<QuoteQuery, MarginError>)
        ensures
            r == Err::<QuoteQuery, MarginError>(MarginError::DistinctAssetViolation) <==> input_mint
                == output_mint,
            input_mint == output_mint ==> *final(account) == *old(account),
            r is Err ==> r == Err::<QuoteQuery, MarginError>(MarginError::DistinctAssetViolation)
                || r == Err::<QuoteQuery, MarginError>(MarginError::AccountFull),
            r is Ok <==> input_mint != output_mint && old(account).can_host_pair(
                input_token_index,
                output_token_index,
            ),
            r is Ok ==> final(account).has_slot_for(input_token_index) && final(account).has_slot_for(output_token_index),
            r is Ok ==> (forall|k: int|
                0 <= k < final(account).positions.len() ==> final(account).positions[k] == old(account).positions[k] || (!old(account).positions[k].active && (#[trigger] final(account).positions[k]).active && final(account).positions[k].indexed_balance.raw == 0 && (final(account).positions[k].token_index == input_token_index || final(account).positions[k].token_index == output_token_index))),
            r matches Ok(q) ==> q.input@ == dec_of(input_mint as nat) && q.output_lst_mint@
                == dec_of(output_mint as nat) && q.amount@ == dec_of(amount as nat),
    {
        if input_mint == output_mint {
            return Err(MarginError::DistinctAssetViolation);
        }
        let ghost orig: Account = *old(account);
        let s1: usize = match account.ensure_token_position(input_token_index) {
            Err(e) => { return Err(e); },
            Ok(i) => i,
        };
        let ghost mid: Account = *account;
        let s2: usize = match account.ensure_token_position(output_token_index) {
            Err(e) => {
                proof {
                    // The second claim failed on a full account; the original
                    // account could not have hosted the pair.
                    lemma_pair_not_hostable(orig, mid, s1 as int, input_token_index,
                        output_token_index);
                }
                return Err(e);
            },
            Ok(i) => i,
        };
        proof {
            lemma_pair_hosted(orig, mid, *account, s1 as int, s2 as int, input_token_index,
                output_token_index);
        }
        proof {
            // The slot claimed for the input asset survives the second call:
            // the second call rewrites at most its own slot, and it can only
            // coincide with the first when both assets share the index.
            if s2 != s1 {
                assert(account.positions[s1 as int] == mid.positions[s1 as int]);
                assert(account.slot_bound_to(s1 as int, input_token_index));
            } else {
                if !(account.positions[s2 as int].token_index == input_token_index) {
                    assert(!mid.positions[s2 as int].active);
                    assert(false);
                }
                assert(account.slot_bound_to(s1 as int, input_token_index));
            }
            assert(account.has_slot_for(input_token_index));
            assert(account.slot_bound_to(s2 as int, output_token_index));
            assert(account.has_slot_for(output_token_index));
        }
        Ok(
            QuoteQuery {
                input: u64_to_dec(input_mint),
                output_lst_mint: u64_to_dec(output_mint),
                amount: u64_to_dec(amount),
            },
        )
    }

    /// Whether an instruction performs implicit native-asset wrapping and
    /// must not reach the composed transaction: the envelope funds the
    /// account from ledger custody, so wrapping would double-charge.
    pub open spec fn spec_strips(self, ix: ProgIxView) -> bool {
        ix.program == self.system_program || (ix.program == self.token_program && ix.data
            == self.sync_native_data@)
    }

    /// The provider stream with every wrapping instruction removed, in
    /// order.
    pub open spec fn strip_spec(self, s: Seq<ProgIx>) -> Seq<ProgIxView>
        decreases s.len(),
    {
        if s.len() == 0 {
            Seq::empty()
        } else {
            let rest = self.strip_spec(s.drop_last());
            if self.spec_strips(s.last()@) {
                rest
            } else {
                rest.push(s.last()@)
            }
        }
    }

    /// Index of the first action-classified instruction, or the length when
    /// every instruction is setup.
    pub open spec fn first_action(self, s: Seq<ProgIxView>) -> int
        decreases s.len(),
    {
        if s.len() == 0 {
            0
        } else {
            let fa = self.first_action(s.drop_last());
            if fa < s.len() - 1 {
                fa
            } else if !self.spec_is_setup(s.last().program) {
                s.len() - 1
            } else {
                s.len() as int
            }
        }
    }

    /// One past the index of the last action-classified instruction, or
    /// zero when every instruction is setup.
    pub open spec fn past_last_action(self, s: Seq<ProgIxView>) -> int
        decreases s.len(),
    {
        if s.len() == 0 {
            0
        } else if !self.spec_is_setup(s.last().program) {
            s.len() as int
        } else {
            self.past_last_action(s.drop_last())
        }
    }

    /// Removes the wrapping instructions from the provider stream.
    pub fn strip_wrapped_native(&self, ixs: &Vec<ProgIx>) -> (r: Vec<ProgIx>)
        ensures
            prog_view(r@) == self.strip_spec(ixs@),
    {
        let n = ixs.len();
        let mut out: Vec<ProgIx> = Vec::new();
        let mut i: usize = 0;
        while i < n
            invariant
                n == ixs@.len(),
                i <= n,
                prog_view(out@) =~= self.strip_spec(ixs@.take(i as int)),
            decreases n - i,
        {
            proof {
                assert(ixs@.take(i + 1).drop_last() =~= ixs@.take(i as int));
            }
            let ix = &ixs[i];
            let drop_it: bool = ix.program == self.system_program || (ix.program
                == self.token_program && bytes_eq(&ix.data, &self.sync_native_data));
            if !drop_it {
                out.push(ix.duplicate());
            }
            proof {
                assert(prog_view(out@) =~= self.strip_spec(ixs@.take(i + 1)));
            }
            i = i + 1;
        }
        proof {
            assert(ixs@.take(n as int) =~= ixs@);
            assert(prog_view(out@) =~= self.strip_spec(ixs@));
        }
        out
    }

    /// The first and past-last action indices are well-placed bounds: all
    /// setup before the first action and from the past-last action on, and
    /// action instructions at both ends of the block.
    pub proof fn lemma_action_bounds(self, s: Seq<ProgIxView>)
        ensures
            0 <= self.first_action(s) <= s.len(),
            0 <= self.past_last_action(s) <= s.len(),
            self.first_action(s) < s.len() <==> self.past_last_action(s) > 0,
            forall|k: int| 0 <= k < self.first_action(s) ==> self.spec_is_setup((#[trigger] s[k]).program),
            self.first_action(s) < s.len() ==> !self.spec_is_setup(
                s[self.first_action(s)].program,
            ),
            forall|k: int|
                self.past_last_action(s) <= k < s.len() ==> self.spec_is_setup(
                    (#[trigger] s[k]).program,
                ),
            self.past_last_action(s) > 0 ==> !self.spec_is_setup(
                s[self.past_last_action(s) - 1].program,
            ),
            self.first_action(s) < s.len() ==> self.first_action(s) < self.past_last_action(s),
        decreases s.len(),
    {
        if s.len() > 0 {
            let d = s.drop_last();
            let len = s.len() as int;
            self.lemma_action_bounds(d);
            assert(forall|k: int| 0 <= k < len - 1 ==> (#[trigger] s[k]) == d[k]);
            if !self.spec_is_setup(s.last().program) {
                assert(self.past_last_action(s) == len);
                assert(forall|k: int|
                    self.past_last_action(s) <= k < len ==> self.spec_is_setup(
                        (#[trigger] s[k]).program,
                    ));
            } else {
                assert(self.past_last_action(s) == self.past_last_action(d));
                assert(forall|k: int|
                    self.past_last_action(s) <= k < len ==> self.spec_is_setup(
                        (#[trigger] s[k]).program,
                    ));
            }
            if self.first_action(d) < len - 1 {
                assert(self.first_action(s) == self.first_action(d));
            }
        }
    }

    /// Splits a stripped provider stream into the setup prefix, the action
    /// block and the setup suffix: returns the first action index and one
    /// past the last. Fails exactly when the stream holds no action
    /// instruction at all.
    pub fn partition_setup_action(&self, stripped: &Vec<ProgIx>) -> (r: Result<
        (usize, usize),
        MarginError,
    >)
        ensures
            r is Ok <==> self.first_action(prog_view(stripped@)) < stripped@.len(),
            r is Err ==> r == Err::<(usize, usize), MarginError>(MarginError::ProviderMisuse),
            r matches Ok((b, e)) ==> b == self.first_action(prog_view(stripped@)) && e
                == self.past_last_action(prog_view(stripped@)) && b < e <= stripped@.len(),
    {
        let n = stripped.len();
        let ghost sv = prog_view(stripped@);
        let mut b: usize = 0;
        let mut found: bool = false;
        while !found && b < n
            invariant
                n == stripped@.len(),
                sv == prog_view(stripped@),
                b <= n,
                !found ==> self.first_action(sv.take(b as int)) == sv.take(b as int).len(),
                found ==> b < n && self.first_action(sv) == b,
            decreases n - b, (if found { 0int } else { 1int }),
        {
            proof {
                assert(sv.take(b + 1).drop_last() =~= sv.take(b as int));
            }
            if !self.is_setup_ix(stripped[b].program) {
                proof {
                    self.lemma_first_action_extend(sv, b as int);
                }
                found = true;
            } else {
                b = b + 1;
            }
        }
        if !found {
            proof {
                assert(sv.take(n as int) =~= sv);
            }
            return Err(MarginError::ProviderMisuse);
        }
        proof {
            self.lemma_action_bounds(sv);
            assert(sv.take(n as int) =~= sv);
        }
        let mut e: usize = n;
        while e > 0
            invariant
                n == stripped@.len(),
                sv == prog_view(stripped@),
                e <= n,
                self.past_last_action(sv) == self.past_last_action(sv.take(e as int)),
                self.first_action(sv) < sv.len(),
                b == self.first_action(sv),
            decreases e,
        {
            if !self.is_setup_ix(stripped[e - 1].program) {
                proof {
                    assert(sv.take(e as int).last() == sv[e - 1]);
                    self.lemma_action_bounds(sv);
                }
                return Ok((b, e));
            }
            proof {
                assert(sv.take(e as int).drop_last() =~= sv.take(e - 1));
            }
            e = e - 1;
        }
        proof {
            assert(sv.take(0int) =~= Seq::<ProgIxView>::empty());
            self.lemma_action_bounds(sv);
            assert(false);
        }
        Err(MarginError::ProviderMisuse)
    }

    /// A scan that stopped at an action instruction has found the first
    /// action index of the whole stream.
    proof fn lemma_first_action_extend(self, s: Seq<ProgIxView>, b: int)
        requires
            0 <= b < s.len(),
            self.first_action(s.take(b)) == s.take(b).len(),
            !self.spec_is_setup(s[b].program),
        ensures
            self.first_action(s) == b,
        decreases s.len(),
    {
        self.lemma_action_bounds(s);
        self.lemma_action_bounds(s.take(b));
        if self.first_action(s) < b {
            assert(s.take(b)[self.first_action(s)] == s[self.first_action(s)]);
            assert(self.spec_is_setup(s[self.first_action(s)].program));
            assert(false);
        }
        if self.first_action(s) > b {
            assert(self.spec_is_setup(s[b].program));
            assert(false);
        }
    }

    /// Builds the action request for a quote: the exact-input amount passes
    /// through, the quoted floor is the slippage-adjusted estimate, and the
    /// account owner signs. Fails exactly when the quote carries no input
    /// amount or a malformed output amount.
    pub fn build_swap_request(
        &self,
        quote: &QuoteResponse,
        input_mint: u64,
        output_mint: u64,
        max_slippage_bps: u64,
    ) -> (r: Result<SwapRequest, MarginError>)
        ensures
            r is Ok <==> quote.in_amount is Some && parseable_u64(quote.out_amount@),
            quote.in_amount is None ==> r == Err::<SwapRequest, MarginError>(
                MarginError::ProviderMisuse,
            ),
            quote.in_amount is Some && !parseable_u64(quote.out_amount@) ==> r == Err::<
                SwapRequest,
                MarginError,
            >(MarginError::ArithmeticOverflow),
            r matches Ok(req) ==> quote.in_amount matches Some(ia) && req.amount@ == ia@
                && req.quoted_amount@ == dec_of(
                spec_min_output(dec_val(quote.out_amount@) as u64, max_slippage_bps) as nat,
            ) && req.input@ == dec_of(input_mint as nat) && req.mode@ == "ExactIn"@
                && req.output_lst_mint@ == dec_of(output_mint as nat) && req.signer@ == dec_of(
                self.owner as nat,
            ) && req.swap_src@ == quote.swap_src@,
    {
        let in_amount: String = match &quote.in_amount {
            None => { return Err(MarginError::ProviderMisuse); },
            Some(s) => s.clone(),
        };
        let out_amount: u64 = match parse_u64_dec(quote.out_amount.as_str()) {
            Err(e) => { return Err(e); },
            Ok(v) => v,
        };
        let floor: u64 = min_output(out_amount, max_slippage_bps);
        Ok(
            SwapRequest {
                amount: in_amount,
                quoted_amount: u64_to_dec(floor),
                input: u64_to_dec(input_mint),
                mode: String::from_str("ExactIn"),
                output_lst_mint: u64_to_dec(output_mint),
                signer: u64_to_dec(self.owner),
                swap_src: quote.swap_src.clone(),
            },
        )
    }

    /// The composed instruction list: the setup prefix, the idempotent
    /// funding-account creation, the envelope's opening half lending the
    /// input amount, the action block, the closing half, and the setup
    /// suffix.
    pub open spec fn composed_spec(
        self,
        sv: Seq<ProgIxView>,
        loan: u64,
        input_mint: u64,
    ) -> Seq<ComposedIxView> {
        let b = self.first_action(sv);
        let e = self.past_last_action(sv);
        sv.take(b).map_values(|x: ProgIxView| ComposedIxView::Provider(x)) + seq![
            ComposedIxView::EnsureFundingAccount { owner: self.owner, mint: input_mint },
            ComposedIxView::FlashLoanBegin { loan_amounts: seq![loan, 0u64] },
        ] + sv.subrange(b, e).map_values(|x: ProgIxView| ComposedIxView::Provider(x)) + seq![
            ComposedIxView::FlashLoanEnd {
                num_loans: 2,
                flash_loan_type: FlashLoanType::Swap,
            },
        ] + sv.skip(e).map_values(|x: ProgIxView| ComposedIxView::Provider(x))
    }

    /// The loan to request for a quote: its reported required input, or
    /// nothing when it reports none.
    pub open spec fn spec_loan_amount(quote: QuoteResponse) -> nat {
        match quote.in_amount {
            Option::None => 0,
            Option::Some(s) => dec_val(s@),
        }
    }

    /// Assembles the envelope-wrapped swap transaction from a quote and the
    /// provider's decoded instruction stream and lookup data.
    ///
    /// The wrapping instructions are stripped, the remainder is split at the
    /// first and last action instruction, and the action block is bracketed
    /// by the envelope borrowing the quote's input amount. Lookup tables
    /// merge the registered set with the provider's. Fails with an
    /// arithmetic error exactly on a malformed input amount, and with
    /// `ProviderMisuse` exactly when no action instruction remains.
    pub fn prepare_swap_transaction(
        &self,
        quote: &QuoteResponse,
        provider_ixs: &Vec<ProgIx>,
        provider_alts: &Vec<u64>,
        input_mint: u64,
    ) -> (r: Result<TransactionBuilder, MarginError>)
        ensures
            r is Ok <==> (quote.in_amount matches Some(s) ==> parseable_u64(s@))
                && self.first_action(self.strip_spec(provider_ixs@)) < self.strip_spec(
                provider_ixs@,
            ).len(),
            r == Err::<TransactionBuilder, MarginError>(MarginError::ArithmeticOverflow) <==> (
            quote.in_amount matches Some(s) && !parseable_u64(s@)),
            r matches Ok(tb) ==> composed_view(tb.instructions@) == self.composed_spec(
                self.strip_spec(provider_ixs@),
                Self::spec_loan_amount(*quote) as u64,
                input_mint,
            ),
            r matches Ok(tb) ==> tb.address_lookup_tables@ == self.registered_lookup_tables@
                + provider_alts@ && tb.payer == self.owner && tb.signers@ == seq![self.owner],
    {
        let source_loan: u64 = match &quote.in_amount {
            None => 0,
            Some(s) => {
                match parse_u64_dec(s.as_str()) {
                    Err(e) => { return Err(e); },
                    Ok(v) => v,
                }
            },
        };
        let stripped: Vec<ProgIx> = self.strip_wrapped_native(provider_ixs);
        let ghost sv = prog_view(stripped@);
        let (b, e): (usize, usize) = match self.partition_setup_action(&stripped) {
            Err(e) => { return Err(e); },
            Ok(p) => p,
        };
        let ghost target = self.composed_spec(sv, source_loan, input_mint);
        proof {
            self.lemma_action_bounds(sv);
        }
        let n = stripped.len();
        let mut instructions: Vec<ComposedIx> = Vec::new();
        let mut k: usize = 0;
        while k < b
            invariant
                n == stripped@.len(),
                sv == prog_view(stripped@),
                target == self.composed_spec(sv, source_loan, input_mint),
                b == self.first_action(sv),
                e == self.past_last_action(sv),
                b < e <= n,
                k <= b,
                instructions@.len() == k,
                forall|j: int| 0 <= j < k ==> (#[trigger] instructions@[j])@ == target[j],
            decreases b - k,
        {
            instructions.push(ComposedIx::Provider(stripped[k].duplicate()));
            k = k + 1;
        }
        instructions.push(
            ComposedIx::EnsureFundingAccount { owner: self.owner, mint: input_mint },
        );
        let loan_amounts: Vec<u64> = vec![source_loan, 0u64];
        proof {
            assert(loan_amounts@ =~= seq![source_loan, 0u64]);
        }
        instructions.push(ComposedIx::FlashLoanBegin { loan_amounts });
        let mut k2: usize = b;
        while k2 < e
            invariant
                n == stripped@.len(),
                sv == prog_view(stripped@),
                target == self.composed_spec(sv, source_loan, input_mint),
                b == self.first_action(sv),
                e == self.past_last_action(sv),
                b <= k2 <= e <= n,
                instructions@.len() == k2 + 2,
                forall|j: int|
                    0 <= j < instructions@.len() ==> (#[trigger] instructions@[j])@ == target[j],
            decreases e - k2,
        {
            instructions.push(ComposedIx::Provider(stripped[k2].duplicate()));
            k2 = k2 + 1;
        }
        instructions.push(
            ComposedIx::FlashLoanEnd { num_loans: 2, flash_loan_type: FlashLoanType::Swap },
        );
        let mut k3: usize = e;
        while k3 < n
            invariant
                n == stripped@.len(),
                sv == prog_view(stripped@),
                target == self.composed_spec(sv, source_loan, input_mint),
                b == self.first_action(sv),
                e == self.past_last_action(sv),
                b < e <= k3 <= n,
                instructions@.len() == k3 + 3,
                forall|j: int|
                    0 <= j < instructions@.len() ==> (#[trigger] instructions@[j])@ == target[j],
            decreases n - k3,
        {
            instructions.push(ComposedIx::Provider(stripped[k3].duplicate()));
            k3 = k3 + 1;
        }
        proof {
            assert(composed_view(instructions@) =~= target);
        }
        let mut address_lookup_tables: Vec<u64> = Vec::new();
        let mut a1: usize = 0;
        let reg_len = self.registered_lookup_tables.len();
        while a1 < reg_len
            invariant
                reg_len == self.registered_lookup_tables@.len(),
                a1 <= reg_len,
                address_lookup_tables@ =~= self.registered_lookup_tables@.take(a1 as int),
            decreases reg_len - a1,
        {
            address_lookup_tables.push(self.registered_lookup_tables[a1]);
            a1 = a1 + 1;
        }
        let mut a2: usize = 0;
        let palts_len = provider_alts.len();
        while a2 < palts_len
            invariant
                reg_len == self.registered_lookup_tables@.len(),
                palts_len == provider_alts@.len(),
                a2 <= palts_len,
                address_lookup_tables@ =~= self.registered_lookup_tables@.take(reg_len as int)
                    + provider_alts@.take(a2 as int),
            decreases palts_len - a2,
        {
            address_lookup_tables.push(provider_alts[a2]);
            a2 = a2 + 1;
        }
        proof {
            assert(self.registered_lookup_tables@.take(reg_len as int)
                =~= self.registered_lookup_tables@);
            assert(provider_alts@.take(palts_len as int) =~= provider_alts@);
            assert(address_lookup_tables@ =~= self.registered_lookup_tables@ + provider_alts@);
        }
        let signers: Vec<u64> = vec![self.owner];
        proof {
            assert(signers@ =~= seq![self.owner]);
        }
        Ok(
            TransactionBuilder {
                instructions,
                address_lookup_tables,
                payer: self.owner,
                signers,
            },
        )
    }
}

/// How one composed instruction looks to the envelope's bracket guard.
pub open spec fn bracket_tag_of(ix: ComposedIxView) -> crate::flash_loan::BracketTag {
    match ix {
        ComposedIxView::FlashLoanBegin { loan_amounts } => (crate::flash_loan::BracketTag::Begin {
            num_loans: loan_amounts.len() as usize,
        }),
        ComposedIxView::FlashLoanEnd { num_loans, .. } => (crate::flash_loan::BracketTag::End {
            num_loans: num_loans as usize,
        }),
        _ => crate::flash_loan::BracketTag::Unrelated,
    }
}

impl Sanctum {
    /// Whatever the provider sent, the composed transaction always passes
    /// the envelope's bracket guard: it holds exactly one opening and one
    /// closing half, in that order, declaring the same number of loans.
    pub proof fn lemma_composed_well_bracketed(
        self,
        sv: Seq<ProgIxView>,
        loan: u64,
        input_mint: u64,
    )
        requires
            self.first_action(sv) < sv.len(),
        ensures
            crate::flash_loan::valid_bracket(
                self.composed_spec(sv, loan, input_mint).map_values(
                    |ix: ComposedIxView| bracket_tag_of(ix),
                ),
            ),
    {
        self.lemma_action_bounds(sv);
        let b = self.first_action(sv);
        let e = self.past_last_action(sv);
        let cs = self.composed_spec(sv, loan, input_mint);
        let tags = cs.map_values(|ix: ComposedIxView| bracket_tag_of(ix));
        assert(cs.len() == sv.len() + 3);
        assert(forall|j: int| 0 <= j < b ==> (#[trigger] cs[j]) is Provider);
        assert(cs[b] is EnsureFundingAccount);
        assert(cs[b + 1] == (ComposedIxView::FlashLoanBegin { loan_amounts: seq![loan, 0u64] }));
        assert(forall|j: int| b + 2 <= j < e + 2 ==> (#[trigger] cs[j]) is Provider);
        assert(cs[e + 2] == (ComposedIxView::FlashLoanEnd {
            num_loans: 2,
            flash_loan_type: FlashLoanType::Swap,
        }));
        assert(forall|j: int| e + 3 <= j < cs.len() ==> (#[trigger] cs[j]) is Provider);
        assert(forall|j: int|
            0 <= j < tags.len() && j != b + 1 ==> !((#[trigger] tags[j])
                is Begin));
        assert(forall|j: int|
            0 <= j < tags.len() && j != e + 2 ==> !((#[trigger] tags[j]) is End));
        assert(crate::flash_loan::declared_loans(tags[b + 1]) == 2);
        assert(crate::flash_loan::declared_loans(tags[e + 2]) == 2);
        crate::flash_loan::lemma_bracket_from_unique_pair(tags, b + 1, e + 2);
    }
}

/// Merges the mints found in the provider's registry with the hardcoded
/// extras into one duplicate-free list: the supported-asset set. The
/// surrounding client fetches and parses the registry accounts; this is
/// the collation.
pub fn collect_supported_mints(pool_mints: &Vec<u64>, extra_mints: &Vec<u64>) -> (r: Vec<u64>)
    ensures
        forall|x: u64|
            #[trigger] r@.contains(x) <==> (pool_mints@.contains(x) || extra_mints@.contains(x)),
        forall|i: int, j: int| 0 <= i < j < r@.len() ==> r@[i] != r@[j],
{
    let mut out: Vec<u64> = Vec::new();
    let mut i: usize = 0;
    let n1 = pool_mints.len();
    while i < n1
        invariant
            n1 == pool_mints@.len(),
            i <= n1,
            forall|x: u64| #[trigger] out@.contains(x) <==> pool_mints@.take(i as int).contains(x),
            forall|a: int, b: int| 0 <= a < b < out@.len() ==> out@[a] != out@[b],
        decreases n1 - i,
    {
        let x = pool_mints[i];
        let ghost out0 = out@;
        if !contains_u64(&out, x) {
            out.push(x);
            proof {
                assert forall|y: u64| #[trigger] out@.contains(y) <==> (out0.contains(y) || y
                    == x) by {
                    lemma_seq_contains_after_push(out0, x, y);
                }
            }
        }
        proof {
            assert(forall|y: u64|
                pool_mints@.take(i + 1).contains(y) <==> (pool_mints@.take(i as int).contains(y)
                    || y == pool_mints@[i as int])) by {
                assert(forall|k: int|
                    0 <= k < i + 1 ==> pool_mints@.take(i + 1)[k] == #[trigger] pool_mints@[k]);
                assert(forall|k: int|
                    0 <= k < i ==> pool_mints@.take(i as int)[k] == #[trigger] pool_mints@[k]);
            }
        }
        i = i + 1;
    }
    proof {
        assert(pool_mints@.take(n1 as int) =~= pool_mints@);
    }
    let mut j: usize = 0;
    let n2 = extra_mints.len();
    while j < n2
        invariant
            n2 == extra_mints@.len(),
            j <= n2,
            forall|x: u64|
                #[trigger] out@.contains(x) <==> (pool_mints@.contains(x)
                    || extra_mints@.take(j as int).contains(x)),
            forall|a: int, b: int| 0 <= a < b < out@.len() ==> out@[a] != out@[b],
        decreases n2 - j,
    {
        let x = extra_mints[j];
        let ghost out0 = out@;
        if !contains_u64(&out, x) {
            out.push(x);
            proof {
                assert forall|y: u64| #[trigger] out@.contains(y) <==> (out0.contains(y) || y
                    == x) by {
                    lemma_seq_contains_after_push(out0, x, y);
                }
            }
        }
        proof {
            assert(forall|y: u64|
                extra_mints@.take(j + 1).contains(y) <==> (extra_mints@.take(j as int).contains(y)
                    || y == extra_mints@[j as int])) by {
                assert(forall|k: int|
                    0 <= k < j + 1 ==> extra_mints@.take(j + 1)[k] == #[trigger] extra_mints@[k]);
                assert(forall|k: int|
                    0 <= k < j ==> extra_mints@.take(j as int)[k] == #[trigger] extra_mints@[k]);
            }
        }
        j = j + 1;
    }
    proof {
        assert(extra_mints@.take(n2 as int) =~= extra_mints@);
    }
    out
}

/// Whether a list holds a value.
fn contains_u64(v: &Vec<u64>, x: u64) -> (r: bool)
    ensures
        r == v@.contains(x),
{
    let n = v.len();
    let mut i: usize = 0;
    while i < n
        invariant
            n == v@.len(),
            i <= n,
            forall|k: int| 0 <= k < i ==> v@[k] != x,
        decreases n - i,
    {
        if v[i] == x {
            return true;
        }
        i = i + 1;
    }
    proof {
        if v@.contains(x) {
            let k = choose|k: int| 0 <= k < v@.len() && v@[k] == x;
            assert(v@[k] != x);
        }
    }
    false
}


/// When the first asset's slot is secured but the second claim finds the
/// account full, the original account could not host the pair.
proof fn lemma_pair_not_hostable(orig: Account, mid: Account, s1: int, t_in: u16, t_out: u16)
    requires
        mid.positions.len() == orig.positions.len(),
        0 <= s1 < mid.positions.len(),
        mid.slot_bound_to(s1, t_in),
        forall|k: int|
            0 <= k < mid.positions.len() && k != s1 ==> mid.positions[k] == orig.positions[k],
        orig.slot_bound_to(s1, t_in) ==> mid == orig,
        !orig.slot_bound_to(s1, t_in) ==> !orig.has_slot_for(t_in) && !orig.positions[s1].active,
        !mid.has_slot_for(t_out),
        mid.all_slots_taken(),
    ensures
        !orig.can_host_pair(t_in, t_out),
{
    if orig.slot_bound_to(s1, t_in) {
        // The account was untouched: it already lacked a slot for the
        // second asset and had no room left.
        assert(orig.has_slot_for(t_in));
        assert(!orig.has_slot_for(t_out));
        assert(orig.all_slots_taken());
    } else {
        // The first claim took the only free slot.
        assert(!orig.has_slot_for(t_in));
        if t_in == t_out {
            assert(mid.has_slot_for(t_out));
            assert(false);
        }
        if orig.has_slot_for(t_out) {
            let k = choose|k: int|
                0 <= k < orig.positions.len() && orig.slot_bound_to(k, t_out);
            assert(k != s1);
            assert(mid.slot_bound_to(k, t_out));
            assert(false);
        }
        if orig.has_two_free_slots() {
            let (k1, k2) = choose|k1: int, k2: int|
                0 <= k1 < k2 < orig.positions.len() && !(#[trigger] orig.positions[k1]).active
                    && !(#[trigger] orig.positions[k2]).active;
            if k1 != s1 {
                assert(!mid.positions[k1].active);
                assert(!mid.all_slots_taken());
            } else {
                assert(!mid.positions[k2].active);
                assert(!mid.all_slots_taken());
            }
            assert(false);
        }
    }
}

/// When both claims succeeded, the original account could host the pair.
proof fn lemma_pair_hosted(
    orig: Account,
    mid: Account,
    fin: Account,
    s1: int,
    s2: int,
    t_in: u16,
    t_out: u16,
)
    requires
        mid.positions.len() == orig.positions.len(),
        fin.positions.len() == mid.positions.len(),
        0 <= s1 < mid.positions.len(),
        0 <= s2 < fin.positions.len(),
        mid.slot_bound_to(s1, t_in),
        forall|k: int|
            0 <= k < mid.positions.len() && k != s1 ==> mid.positions[k] == orig.positions[k],
        orig.slot_bound_to(s1, t_in) ==> mid == orig,
        !orig.slot_bound_to(s1, t_in) ==> !orig.has_slot_for(t_in) && !orig.positions[s1].active,
        fin.slot_bound_to(s2, t_out),
        mid.slot_bound_to(s2, t_out) ==> fin == mid,
        !mid.slot_bound_to(s2, t_out) ==> !mid.has_slot_for(t_out) && !mid.positions[s2].active,
    ensures
        orig.can_host_pair(t_in, t_out),
{
    if orig.slot_bound_to(s1, t_in) {
        assert(orig.has_slot_for(t_in));
        if mid.slot_bound_to(s2, t_out) {
            assert(orig.slot_bound_to(s2, t_out));
            assert(orig.has_slot_for(t_out));
        } else {
            assert(!orig.positions[s2].active);
            assert(!orig.all_slots_taken());
        }
    } else {
        assert(!orig.has_slot_for(t_in));
        assert(!orig.positions[s1].active);
        assert(!orig.all_slots_taken());
        if mid.slot_bound_to(s2, t_out) {
            if s2 == s1 {
                assert(t_in == t_out);
            } else {
                assert(orig.slot_bound_to(s2, t_out));
                assert(orig.has_slot_for(t_out));
            }
        } else {
            // The second claim found a free slot in the once-claimed state,
            // so the original account had two.
            assert(!mid.positions[s2].active);
            assert(s2 != s1);
            assert(!orig.positions[s2].active);
            if s1 < s2 {
                assert(orig.has_two_free_slots());
            } else {
                assert(orig.has_two_free_slots());
            }
        }
    }
}

/// Whether two byte vectors hold the same bytes.
fn bytes_eq(a: &Vec<u8>, b: &Vec<u8>) -> (r: bool)
    ensures
        r == (a@ == b@),
{
    if a.len() != b.len() {
        return false;
    }
    let n = a.len();
    let mut i: usize = 0;
    while i < n
        invariant
            n == a@.len() == b@.len(),
            i <= n,
            forall|j: int| 0 <= j < i ==> a@[j] == b@[j],
        decreases n - i,
    {
        if a[i] != b[i] {
            return false;
        }
        i = i + 1;
    }
    proof {
        assert(a@ =~= b@);
    }
    true
}

} // verus!
