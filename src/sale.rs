//! Royalty queries and the payout of a sale.

use vstd::prelude::*;

use crate::contract::Contract;
use crate::error::ContractError;
use crate::keyed::{find_key, lemma_lookup_absent, lemma_lookup_at};
use crate::royalty::{
    Entries, MAX_LEN_PAYOUT, MAX_PAYOUT, Payout, amount_total, compute_payout, payout_error, payout_of,
    royalties_valid,
};

verus! {

impl Contract {
    /// The royalty record of `token`, empty when it has none.
    pub open spec fn royalty_or_empty(&self, token: Seq<char>) -> Entries {
        match self.royalty(token) {
            Some(e) => e,
            None => seq![],
        }
    }

    /// The royalty record of `token_id`, or an empty one; refused when it
    /// has more than `max_len_payout` entries.
    pub fn nft_royalties(&self, token_id: &String, max_len_payout: u32) -> (r: Result<Payout, ContractError>)
        ensures
            self.royalty_or_empty(token_id@).len() > max_len_payout ==> r == Err::<Payout, ContractError>(
                ContractError::PayoutTooLong,
            ),
            self.royalty_or_empty(token_id@).len() <= max_len_payout ==> r is Ok && r->Ok_0@
                == self.royalty_or_empty(token_id@),
    {
        let royalties = match find_key(&self.payouts, token_id) {
            Some(i) => {
                proof {
                    lemma_lookup_at(self.payouts@, token_id@, i as int);
                }
                self.payouts[i].1.clone()
            },
            None => {
                proof {
                    lemma_lookup_absent(self.payouts@, token_id@);
                }
                Payout::new()
            },
        };
        if royalties.payout.len() > max_len_payout as usize {
            return Err(ContractError::PayoutTooLong);
        }
        Ok(royalties)
    }

    /// The payout of a sale of `balance` for `token_id`, whose owner the
    /// token ledger reports as `owner_id` (none when the token does not
    /// exist). Accounts other than the owner receive their royalty share,
    /// the owner what is left.
    pub fn nft_payout(&self, token_id: &String, owner_id: Option<String>, balance: u128, max_len_payout: u32) -> (r:
        Result<Payout, ContractError>)
        ensures
            owner_id is None ==> r == Err::<Payout, ContractError>(ContractError::TokenNotFound),
            owner_id is Some ==> match payout_error(
                self.royalty_or_empty(token_id@),
                owner_id->0@,
                max_len_payout as int,
            ) {
                Some(e) => r == Err::<Payout, ContractError>(e),
                None => r is Ok && r->Ok_0@ == payout_of(
                    self.royalty_or_empty(token_id@),
                    owner_id->0@,
                    balance as int,
                ),
            },
    {
        let owner = match owner_id {
            Some(o) => o,
            None => {
                return Err(ContractError::TokenNotFound);
            },
        };
        match find_key(&self.payouts, token_id) {
            Some(i) => {
                proof {
                    lemma_lookup_at(self.payouts@, token_id@, i as int);
                }
                compute_payout(&self.payouts[i].1, &owner, balance, max_len_payout)
            },
            None => {
                proof {
                    lemma_lookup_absent(self.payouts@, token_id@);
                }
                let empty = Payout::new();
                compute_payout(&empty, &owner, balance, max_len_payout)
            },
        }
    }

    /// The payout of a sale that is to transfer the token, computed before
    /// the transfer; the call must carry exactly one unit of deposit.
    pub fn nft_transfer_payout(
        &self,
        attached_deposit: u128,
        token_id: &String,
        owner_id: Option<String>,
        balance: u128,
        max_len_payout: u32,
    ) -> (r: Result<Payout, ContractError>)
        ensures
            attached_deposit != 1 ==> r == Err::<Payout, ContractError>(ContractError::MissingDeposit),
            attached_deposit == 1 && owner_id is None ==> r == Err::<Payout, ContractError>(
                ContractError::TokenNotFound,
            ),
            attached_deposit == 1 && owner_id is Some ==> match payout_error(
                self.royalty_or_empty(token_id@),
                owner_id->0@,
                max_len_payout as int,
            ) {
                Some(e) => r == Err::<Payout, ContractError>(e),
                None => r is Ok && r->Ok_0@ == payout_of(
                    self.royalty_or_empty(token_id@),
                    owner_id->0@,
                    balance as int,
                ),
            },
    {
        if attached_deposit != 1 {
            return Err(ContractError::MissingDeposit);
        }
        self.nft_payout(token_id, owner_id, balance, max_len_payout)
    }
}

/// Every royalty record a well-formed state holds names at most
/// `MAX_LEN_PAYOUT` accounts, and its shares add up to less than the whole.
pub proof fn lemma_stored_royalties_bounded(c: Contract, token: Seq<char>)
    requires
        c.wf(),
        c.royalty(token) is Some,
    ensures
        c.royalty(token)->0.len() <= MAX_LEN_PAYOUT,
        amount_total(c.royalty(token)->0) < MAX_PAYOUT,
{
    let i = choose|i: int| crate::keyed::key_at(c.payouts@, token, i);
    lemma_lookup_at(c.payouts@, token, i);
    assert(royalties_valid(c.payouts@[i].1@));
}

} // verus!
