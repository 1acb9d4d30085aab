//! Minting: one token or several numbered copies, optionally into a
//! collection, each with the royalty record it was minted with.

use vstd::prelude::*;

use crate::collection::clone_opt;
use crate::contract::{Contract, opt_view};
use crate::error::ContractError;
use crate::ids::{
    copy_title, copy_title_of, copy_token_id, decimal_of, lemma_copy_ids_distinct,
    lemma_token_id_not_copy_id, lemma_token_ids_distinct, token_id_for, token_id_of,
};
use crate::keyed::{append_entry, insert_entry, lookup};
use crate::metadata::{MintedToken, TokenMetadata, agree_but_title_extra, collection_extra, collection_extra_of};
use crate::royalty::{Payout, royalties_valid, royalty_error, validate_royalties};

verus! {

/// A mint makes one token unless it asks for more than one copy.
pub open spec fn is_single(copies: Option<u64>) -> bool {
    copies is None || copies == Some(1u64)
}

/// How many tokens a mint makes.
pub open spec fn mint_count(copies: Option<u64>) -> int {
    if is_single(copies) {
        1
    } else {
        copies->0 as int
    }
}

/// The identifier of the `i`-th token (from zero) of a mint whose base
/// identifier is `base`: the base itself, or `<base>-<i + 1>` for copies.
pub open spec fn mint_token_id(base: Seq<char>, copies: Option<u64>, i: int) -> Seq<char> {
    if is_single(copies) {
        base
    } else {
        base + seq!['-'] + decimal_of((i + 1) as nat)
    }
}

/// The title of the `i`-th token of a mint titled `title`.
pub open spec fn mint_title(title: Seq<char>, copies: Option<u64>, i: int) -> Seq<char> {
    if is_single(copies) {
        title
    } else {
        copy_title_of(title, (i + 1) as nat)
    }
}

/// Whether the `i`-th token of a mint refunds the caller: a single token
/// does; of copies, the one numbered `copies - 1` does.
pub open spec fn mint_refunds(copies: Option<u64>, i: int) -> bool {
    is_single(copies) || i + 1 == copies->0 as int - 1
}

/// `t` is the `i`-th token of a mint under `base`, for `owner`, of `meta`
/// with the extra data `extra`, called by `predecessor`.
pub open spec fn minted_token(
    t: MintedToken,
    i: int,
    base: Seq<char>,
    owner: String,
    meta: TokenMetadata,
    extra: Option<Seq<char>>,
    predecessor: String,
) -> bool {
    &&& t.token_id@ == mint_token_id(base, meta.copies, i)
    &&& t.owner_id == owner
    &&& agree_but_title_extra(t.metadata, meta)
    &&& opt_view(t.metadata.extra) == extra
    &&& t.metadata.title is Some
    &&& t.metadata.title->0@ == mint_title(meta.title->0@, meta.copies, i)
    &&& t.refund_id == if mint_refunds(meta.copies, i) {
        Some(predecessor)
    } else {
        None
    }
}

/// `tokens` are the tokens of a mint under `base`.
pub open spec fn minted_as(
    tokens: Seq<MintedToken>,
    base: Seq<char>,
    owner: String,
    meta: TokenMetadata,
    extra: Option<Seq<char>>,
    predecessor: String,
) -> bool {
    &&& tokens.len() == mint_count(meta.copies)
    &&& forall|i: int|
        0 <= i < tokens.len() ==> minted_token(
            #[trigger] tokens[i],
            i,
            base,
            owner,
            meta,
            extra,
            predecessor,
        )
}

/// `k` is the identifier of one of the tokens of a mint under `base`.
pub open spec fn is_minted_id(k: Seq<char>, base: Seq<char>, copies: Option<u64>) -> bool {
    exists|i: int| 0 <= i < mint_count(copies) && #[trigger] mint_token_id(base, copies, i) == k
}

impl Contract {
    /// Why a mint is refused, checked in this order: copies in a
    /// collection, the collection, its owner, the royalty record, the title.
    pub open spec fn mint_error(
        &self,
        predecessor: Seq<char>,
        meta: TokenMetadata,
        royalties: Option<Payout>,
        collection_id: Option<String>,
    ) -> Option<ContractError> {
        if collection_id is Some && meta.copies is Some && meta.copies->0 != 1 {
            Some(ContractError::MultipleCopiesInCollection)
        } else if collection_id is Some && self.collection_info(collection_id->0@) is None {
            Some(ContractError::CollectionNotFound)
        } else if collection_id is Some && self.collection_info(collection_id->0@)->0.owner_id@
            != predecessor {
            Some(ContractError::Unauthorized)
        } else if royalties is Some && royalty_error(royalties->0@) is Some {
            royalty_error(royalties->0@)
        } else if meta.title is None {
            Some(ContractError::MissingTitle)
        } else {
            None
        }
    }

    /// Builds the tokens of one mint under the identifier `token_id` and
    /// stores the royalty record with each of them.
    fn mint_tokens(
        &mut self,
        token_id: String,
        token_owner_id: String,
        token_metadata: TokenMetadata,
        maybe_royalties: Option<Payout>,
        predecessor_id: &String,
    ) -> (r: Vec<MintedToken>)
        requires
            old(self).wf(),
            token_metadata.title is Some,
            maybe_royalties is Some ==> royalties_valid(maybe_royalties->0@),
        ensures
            final(self).wf(),
            minted_as(
                r@,
                token_id@,
                token_owner_id,
                token_metadata,
                opt_view(token_metadata.extra),
                *predecessor_id,
            ),
            forall|k: Seq<char>|
                #![trigger final(self).royalty(k)]
                final(self).royalty(k) == if maybe_royalties is Some && is_minted_id(
                    k,
                    token_id@,
                    token_metadata.copies,
                ) {
                    Some(maybe_royalties->0@)
                } else {
                    old(self).royalty(k)
                },
            final(self).collections == old(self).collections,
            final(self).collections_by_owner_id == old(self).collections_by_owner_id,
            final(self).tokens_by_collection_id == old(self).tokens_by_collection_id,
            final(self).total_minted == old(self).total_minted,
            final(self).total_collections == old(self).total_collections,
            final(self).metadata == old(self).metadata,
            final(self).owner_id == old(self).owner_id,
    {
        let ghost pre = *self;
        let ghost base = token_id@;
        let ghost copies_spec = token_metadata.copies;
        let ghost extra = opt_view(token_metadata.extra);
        let token_title = token_metadata.title.clone().unwrap();
        let mut minted: Vec<MintedToken> = Vec::new();
        let single = match token_metadata.copies {
            None => true,
            Some(c) => c == 1,
        };
        if single {
            if let Some(royalties) = &maybe_royalties {
                let stored = royalties.clone();
                proof {
                    assert(stored@ == royalties@);
                }
                insert_entry(&mut self.payouts, token_id.clone(), stored);
                proof {
                    self.lemma_payouts_valid_after_insert(pre, stored);
                    assert forall|k: Seq<char>| #[trigger]
                        self.royalty(k) == if is_minted_id(k, base, copies_spec) {
                            Some(royalties@)
                        } else {
                            pre.royalty(k)
                        } by {
                        if k == base {
                            assert(mint_token_id(base, copies_spec, 0) == k);
                        }
                    }
                }
            }
            let t = MintedToken {
                token_id,
                owner_id: token_owner_id,
                metadata: token_metadata,
                refund_id: Some(predecessor_id.clone()),
            };
            minted.push(t);
            proof {
                assert(minted_token(minted@[0], 0, base, t.owner_id, t.metadata, extra, *predecessor_id));
            }
        } else {
            let copies = token_metadata.copies.unwrap();
            let mut i: u64 = 0;
            while i < copies
                invariant
                    self.wf(),
                    !is_single(copies_spec),
                    copies_spec == token_metadata.copies,
                    copies_spec == Some(copies),
                    token_title@ == token_metadata.title->0@,
                    base == token_id@,
                    extra == opt_view(token_metadata.extra),
                    maybe_royalties is Some ==> royalties_valid(maybe_royalties->0@),
                    i <= copies,
                    minted@.len() == i,
                    forall|j: int|
                        0 <= j < i ==> minted_token(
                            #[trigger] minted@[j],
                            j,
                            base,
                            token_owner_id,
                            token_metadata,
                            extra,
                            *predecessor_id,
                        ),
                    forall|k: Seq<char>|
                        #![trigger self.royalty(k)]
                        self.royalty(k) == if maybe_royalties is Some && exists|j: int|
                            0 <= j < i && #[trigger] mint_token_id(base, copies_spec, j) == k {
                            Some(maybe_royalties->0@)
                        } else {
                            pre.royalty(k)
                        },
                    self.collections == pre.collections,
                    self.collections_by_owner_id == pre.collections_by_owner_id,
                    self.tokens_by_collection_id == pre.tokens_by_collection_id,
                    self.total_minted == pre.total_minted,
                    self.total_collections == pre.total_collections,
                    self.metadata == pre.metadata,
                    self.owner_id == pre.owner_id,
                decreases copies - i,
            {
                let copy = i + 1;
                let title = copy_title(&token_title, copy);
                let copy_token_id = copy_token_id(&token_id, copy);
                let refund = if copy != copies - 1 {
                    None
                } else {
                    Some(predecessor_id.clone())
                };
                let meta = token_metadata.with_title_extra(Some(title), clone_opt(&token_metadata.extra));
                let ghost before = *self;
                if let Some(royalties) = &maybe_royalties {
                    let stored = royalties.clone();
                    insert_entry(&mut self.payouts, copy_token_id.clone(), stored);
                    proof {
                        self.lemma_payouts_valid_after_insert(before, stored);
                    }
                }
                proof {
                    assert forall|k: Seq<char>| #[trigger]
                        self.royalty(k) == if maybe_royalties is Some && exists|j: int|
                            0 <= j < i + 1 && #[trigger] mint_token_id(base, copies_spec, j) == k {
                            Some(maybe_royalties->0@)
                        } else {
                            pre.royalty(k)
                        } by {
                        if k == copy_token_id@ {
                            assert(mint_token_id(base, copies_spec, i as int) == k);
                            if maybe_royalties is Some {
                                assert(lookup(self.payouts@, k) is Some);
                                assert(self.royalty(k) == Some(maybe_royalties->0@));
                            } else {
                                assert(self.royalty(k) == before.royalty(k));
                            }
                        } else if exists|j: int|
                            0 <= j < i + 1 && #[trigger] mint_token_id(base, copies_spec, j) == k {
                            let j = choose|j: int|
                                0 <= j < i + 1 && #[trigger] mint_token_id(base, copies_spec, j) == k;
                            assert(j != i);
                        }
                    }
                }
                minted.push(
                    MintedToken {
                        token_id: copy_token_id,
                        owner_id: token_owner_id.clone(),
                        metadata: meta,
                        refund_id: refund,
                    },
                );
                i = i + 1;
            }
            proof {
                assert forall|k: Seq<char>| #[trigger]
                    self.royalty(k) == if maybe_royalties is Some && is_minted_id(
                        k,
                        base,
                        copies_spec,
                    ) {
                        Some(maybe_royalties->0@)
                    } else {
                        pre.royalty(k)
                    } by {
                    if is_minted_id(k, base, copies_spec) {
                        let j = choose|j: int|
                            0 <= j < mint_count(copies_spec) && #[trigger] mint_token_id(
                                base,
                                copies_spec,
                                j,
                            ) == k;
                        assert(0 <= j < i && mint_token_id(base, copies_spec, j) == k);
                    }
                }
            }
        }
        minted
    }

    /// Storing a valid record keeps every stored record valid.
    proof fn lemma_payouts_valid_after_insert(&self, before: Contract, stored: Payout)
        requires
            before.wf(),
            royalties_valid(stored@),
            forall|j: int|
                0 <= j < self.payouts@.len() ==> (j < before.payouts@.len() && #[trigger] self.payouts@[j]
                    == before.payouts@[j]) || self.payouts@[j].1 == stored,
            self.collections == before.collections,
            self.collections_by_owner_id == before.collections_by_owner_id,
            self.total_collections == before.total_collections,
        ensures
            self.wf(),
    {
        self.lemma_index_frame(before);
        assert forall|j: int| 0 <= j < self.payouts@.len() implies royalties_valid(
            (#[trigger] self.payouts@[j]).1@,
        ) by {
            if j < before.payouts@.len() && self.payouts@[j] == before.payouts@[j] {
                assert(royalties_valid(before.payouts@[j].1@));
            }
        }
    }

    /// Mints a token for `token_owner_id`, or as many copies of it as its
    /// metadata asks for, and returns the tokens to create in the ledger.
    /// A mint into a collection is only for the collection's owner, and
    /// makes a single token that the collection lists.
    pub fn nft_mint(
        &mut self,
        predecessor_id: &String,
        token_owner_id: String,
        token_metadata: TokenMetadata,
        payout: Option<Payout>,
        collection_id: Option<String>,
    ) -> (r: Result<Vec<MintedToken>, ContractError>)
        requires
            old(self).wf(),
            old(self).total_minted < u128::MAX,
        ensures
            final(self).wf(),
            match old(self).mint_error(predecessor_id@, token_metadata, payout, collection_id) {
                Some(e) => r == Err::<Vec<MintedToken>, ContractError>(e) && *final(self) == *old(self),
                None => {
                    let base = token_id_of((old(self).total_minted + 1) as nat);
                    &&& r is Ok
                    &&& minted_as(
                        r->Ok_0@,
                        base,
                        token_owner_id,
                        token_metadata,
                        match collection_id {
                            Some(c) => Some(
                                collection_extra_of(
                                    c@,
                                    old(self).collection_info(c@)->0.title@,
                                ),
                            ),
                            None => opt_view(token_metadata.extra),
                        },
                        *predecessor_id,
                    )
                    &&& final(self).total_minted == old(self).total_minted + 1
                    &&& forall|i: int, s: nat, c: Option<u64>, j: int|
                        0 <= i < r->Ok_0@.len() && 1 <= s <= old(self).total_minted && 0 <= j
                            < mint_count(c) ==> #[trigger] r->Ok_0@[i].token_id@
                            != #[trigger] mint_token_id(token_id_of(s), c, j)
                    &&& forall|k: Seq<char>|
                        #![trigger final(self).collection_tokens(k)]
                        final(self).collection_tokens(k) == if collection_id is Some && k
                            == collection_id->0@ {
                            old(self).collection_tokens(k).push(base)
                        } else {
                            old(self).collection_tokens(k)
                        }
                    &&& forall|k: Seq<char>|
                        #![trigger final(self).royalty(k)]
                        final(self).royalty(k) == if payout is Some && is_minted_id(
                            k,
                            base,
                            token_metadata.copies,
                        ) {
                            Some(payout->0@)
                        } else {
                            old(self).royalty(k)
                        }
                    &&& final(self).collections == old(self).collections
                    &&& final(self).collections_by_owner_id == old(self).collections_by_owner_id
                    &&& final(self).total_collections == old(self).total_collections
                    &&& final(self).metadata == old(self).metadata
                    &&& final(self).owner_id == old(self).owner_id
                },
            },
    {
        let ghost pre = *self;
        let mut token_metadata = token_metadata;
        let ghost meta0 = token_metadata;
        if collection_id.is_some() {
            match token_metadata.copies {
                Some(c) => {
                    if c != 1 {
                        return Err(ContractError::MultipleCopiesInCollection);
                    }
                },
                None => {},
            }
        }
        let mut position: Option<usize> = None;
        match &collection_id {
            Some(cid) => {
                match self.find_collection(cid) {
                    None => {
                        return Err(ContractError::CollectionNotFound);
                    },
                    Some(c) => {
                        if self.collections[c].owner_id != *predecessor_id {
                            return Err(ContractError::Unauthorized);
                        }
                        position = Some(c);
                    },
                }
            },
            None => {},
        }
        match &payout {
            Some(royalties) => {
                match validate_royalties(royalties) {
                    Err(e) => {
                        return Err(e);
                    },
                    Ok(()) => {},
                }
            },
            None => {},
        }
        if token_metadata.title.is_none() {
            return Err(ContractError::MissingTitle);
        }
        let new_token_id = self.next_token();
        let token_id = token_id_for(new_token_id);
        match collection_id {
            Some(cid) => {
                let c = position.unwrap();
                append_entry(&mut self.tokens_by_collection_id, &cid, token_id.clone());
                let extra = collection_extra(
                    &self.collections[c].collection_id,
                    &self.collections[c].title,
                );
                token_metadata.extra = Some(extra);
            },
            None => {},
        }
        proof {
            self.lemma_index_frame(pre);
        }
        let minted = self.mint_tokens(token_id, token_owner_id, token_metadata, payout, predecessor_id);
        proof {
            assert forall|i: int| 0 <= i < minted@.len() implies minted_token(
                #[trigger] minted@[i],
                i,
                token_id_of((pre.total_minted + 1) as nat),
                token_owner_id,
                meta0,
                match collection_id {
                    Some(c) => Some(collection_extra_of(c@, pre.collection_info(c@)->0.title@)),
                    None => opt_view(meta0.extra),
                },
                *predecessor_id,
            ) by {
                assert(minted_token(
                    minted@[i],
                    i,
                    token_id_of((pre.total_minted + 1) as nat),
                    token_owner_id,
                    token_metadata,
                    opt_view(token_metadata.extra),
                    *predecessor_id,
                ));
            }
        }
        proof {
            let n = (pre.total_minted + 1) as nat;
            assert forall|i: int, s: nat, c: Option<u64>, j: int|
                0 <= i < minted@.len() && 1 <= s <= pre.total_minted && 0 <= j < mint_count(
                    c,
                ) implies #[trigger] minted@[i].token_id@ != #[trigger] mint_token_id(
                token_id_of(s),
                c,
                j,
            ) by {
                assert(minted@[i].token_id@ == mint_token_id(token_id_of(n), meta0.copies, i));
                lemma_mint_ids_unique(n, meta0.copies, i, s, c, j);
            }
        }
        Ok(minted)
    }
}

/// Two tokens of mints with different sequence numbers, or two different
/// tokens of one mint, have different identifiers.
pub proof fn lemma_mint_ids_unique(n1: nat, c1: Option<u64>, i1: int, n2: nat, c2: Option<u64>, i2: int)
    requires
        0 <= i1 < mint_count(c1),
        0 <= i2 < mint_count(c2),
        n1 != n2 || (c1 == c2 && i1 != i2),
    ensures
        mint_token_id(token_id_of(n1), c1, i1) != mint_token_id(token_id_of(n2), c2, i2),
{
    let x = mint_token_id(token_id_of(n1), c1, i1);
    let y = mint_token_id(token_id_of(n2), c2, i2);
    assert(token_id_of(n1) + seq!['-'] + decimal_of((i1 + 1) as nat) == crate::ids::copy_token_id_of(
        n1,
        (i1 + 1) as nat,
    ));
    assert(token_id_of(n2) + seq!['-'] + decimal_of((i2 + 1) as nat) == crate::ids::copy_token_id_of(
        n2,
        (i2 + 1) as nat,
    ));
    if is_single(c1) && is_single(c2) {
        lemma_token_ids_distinct(n1, n2);
    } else if is_single(c1) {
        lemma_token_id_not_copy_id(n1, n2, (i2 + 1) as nat);
    } else if is_single(c2) {
        lemma_token_id_not_copy_id(n2, n1, (i1 + 1) as nat);
    } else {
        lemma_copy_ids_distinct(n1, (i1 + 1) as nat, n2, (i2 + 1) as nat);
    }
}

/// A mint into an existing collection by an account other than its owner
/// is refused as unauthorized, unless it asks for a number of copies other
/// than one, which is refused first.
pub proof fn lemma_foreign_mint_refused(
    c: Contract,
    predecessor: Seq<char>,
    meta: TokenMetadata,
    royalties: Option<Payout>,
    collection_id: String,
)
    requires
        c.collection_info(collection_id@) is Some,
        c.collection_info(collection_id@)->0.owner_id@ != predecessor,
        !(meta.copies is Some && meta.copies->0 != 1),
    ensures
        c.mint_error(predecessor, meta, royalties, Some(collection_id)) == Some(
            ContractError::Unauthorized,
        ),
{
}

/// A mint whose royalty record is too long, sums to the whole or more, or
/// names an invalid account is always refused.
pub proof fn lemma_invalid_royalties_refused(
    c: Contract,
    predecessor: Seq<char>,
    meta: TokenMetadata,
    royalties: Payout,
    collection_id: Option<String>,
)
    requires
        royalty_error(royalties@) is Some,
    ensures
        c.mint_error(predecessor, meta, Some(royalties), collection_id) is Some,
{
}

} // verus!
