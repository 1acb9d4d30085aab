//! The contract's state, its invariant, and the collection registry.

use near_contract_standards::non_fungible_token::metadata::NFTContractMetadata;
use vstd::prelude::*;

use crate::collection::{CollectionMetadata, CollectionMetadataJs};
use crate::error::ContractError;
use crate::ids::{collection_id_for, collection_id_of, lemma_collection_ids_distinct};
use crate::keyed::{append_entry, list_of, lookup};
use crate::royalty::{Entries, Payout, royalties_valid};

verus! {

/// The contract-level metadata of near_contract_standards, which the state
/// carries as it was given and never reads.
#[verifier::external_type_specification]
#[verifier::external_body]
pub struct ExNFTContractMetadata(NFTContractMetadata);

/// The state of the contract.
pub struct Contract {
    /// Metadata of the contract itself, as given when it was set up.
    pub metadata: NFTContractMetadata,
    /// The account that owns the contract.
    pub owner_id: String,
    /// The royalty record of each token that has one.
    pub payouts: Vec<(String, Payout)>,
    /// All collections, in the order they were created.
    pub collections: Vec<CollectionMetadata>,
    /// The identifiers of the collections of each owner.
    pub collections_by_owner_id: Vec<(String, Vec<String>)>,
    /// The identifiers of the tokens of each collection, in mint order.
    pub tokens_by_collection_id: Vec<(String, Vec<String>)>,
    /// How many mints have been made; the last one's sequence number.
    pub total_minted: u128,
    /// How many collections have been created.
    pub total_collections: u128,
}

/// The layout of the state that the previous version of the contract stored.
pub struct PreviousState {
    pub metadata: NFTContractMetadata,
    pub owner_id: String,
    pub payouts: Vec<(String, Payout)>,
    pub collections: Vec<CollectionMetadata>,
    pub collections_by_owner_id: Vec<(String, Vec<String>)>,
    pub tokens_by_collection_id: Vec<(String, Vec<String>)>,
    pub total_minted: u128,
    pub total_collections: u128,
}

impl PreviousState {
    /// The stored state read as the current layout.
    pub open spec fn as_contract(&self) -> Contract {
        Contract {
            metadata: self.metadata,
            owner_id: self.owner_id,
            payouts: self.payouts,
            collections: self.collections,
            collections_by_owner_id: self.collections_by_owner_id,
            tokens_by_collection_id: self.tokens_by_collection_id,
            total_minted: self.total_minted,
            total_collections: self.total_collections,
        }
    }
}

/// A collection with identifier `id` and owner `owner` is registered in `colls`.
pub open spec fn registered_to(colls: Seq<CollectionMetadata>, id: Seq<char>, owner: Seq<char>) -> bool {
    exists|c: int|
        0 <= c < colls.len() && #[trigger] colls[c].collection_id@ == id && colls[c].owner_id@
            == owner
}

/// The text of an optional string.
pub open spec fn opt_view(s: Option<String>) -> Option<Seq<char>> {
    match s {
        Some(v) => Some(v@),
        None => None,
    }
}

impl Contract {
    /// The royalty record stored with `token`, if any.
    pub open spec fn royalty(&self, token: Seq<char>) -> Option<Entries> {
        match lookup(self.payouts@, token) {
            Some(p) => Some(p@),
            None => None,
        }
    }

    /// The tokens of the collection `id`, oldest first.
    pub open spec fn collection_tokens(&self, id: Seq<char>) -> Seq<Seq<char>> {
        list_of(self.tokens_by_collection_id@, id)
    }

    /// The identifiers listed for `owner` in the owner index.
    pub open spec fn owner_index(&self, owner: Seq<char>) -> Seq<Seq<char>> {
        list_of(self.collections_by_owner_id@, owner)
    }

    /// Whether a collection with identifier `id` exists.
    pub open spec fn has_collection(&self, id: Seq<char>) -> bool {
        exists|c: int|
            0 <= c < self.collections@.len() && #[trigger] self.collections@[c].collection_id@ == id
    }

    /// A position of the collection with identifier `id`, if it exists.
    pub open spec fn collection_pos(&self, id: Seq<char>) -> int {
        choose|c: int|
            0 <= c < self.collections@.len() && #[trigger] self.collections@[c].collection_id@ == id
    }

    /// The collection with identifier `id`, if any.
    pub open spec fn collection_info(&self, id: Seq<char>) -> Option<CollectionMetadata> {
        if self.has_collection(id) {
            Some(self.collections@[self.collection_pos(id)])
        } else {
            None
        }
    }

    /// The state's invariant: collections are numbered in creation order,
    /// the owner index lists for each owner exactly the registered
    /// collections it owns, each once, and every stored royalty record is
    /// valid.
    pub open spec fn wf(&self) -> bool {
        &&& self.collections@.len() == self.total_collections
        &&& forall|c: int|
            0 <= c < self.collections@.len() ==> (#[trigger] self.collections@[c]).collection_id@
                == collection_id_of((c + 1) as nat)
        &&& forall|o: Seq<char>, m: int|
            0 <= m < self.owner_index(o).len() ==> registered_to(
                self.collections@,
                #[trigger] self.owner_index(o)[m],
                o,
            )
        &&& forall|c: int|
            0 <= c < self.collections@.len() ==> self.owner_index(
                (#[trigger] self.collections@[c]).owner_id@,
            ).contains(self.collections@[c].collection_id@)
        &&& forall|o: Seq<char>| (#[trigger] self.owner_index(o)).no_duplicates()
        &&& forall|i: int|
            0 <= i < self.payouts@.len() ==> royalties_valid((#[trigger] self.payouts@[i]).1@)
    }

    /// In a well-formed state the collection at position `c` is the one
    /// that its identifier names.
    pub proof fn lemma_collection_at(&self, c: int)
        requires
            self.wf(),
            0 <= c < self.collections@.len(),
        ensures
            self.collection_info(self.collections@[c].collection_id@) == Some(self.collections@[c]),
    {
        let id = self.collections@[c].collection_id@;
        assert(self.collections@[c].collection_id@ == id);
        assert(self.has_collection(id));
        let d = self.collection_pos(id);
        assert(0 <= d < self.collections@.len() && self.collections@[d].collection_id@ == id);
        if d != c {
            assert(self.collections@[d].collection_id@ == collection_id_of((d + 1) as nat));
            assert(self.collections@[c].collection_id@ == collection_id_of((c + 1) as nat));
            lemma_collection_ids_distinct((c + 1) as nat, (d + 1) as nat);
        }
        assert(self.collections@[d] == self.collections@[c]);
    }

    /// The owner index's invariant depends on the collections and the index only.
    pub(crate) proof fn lemma_index_frame(&self, other: Contract)
        requires
            other.wf(),
            self.collections == other.collections,
            self.collections_by_owner_id == other.collections_by_owner_id,
            self.total_collections == other.total_collections,
        ensures
            forall|o: Seq<char>, m: int|
                0 <= m < self.owner_index(o).len() ==> registered_to(
                    self.collections@,
                    #[trigger] self.owner_index(o)[m],
                    o,
                ),
            forall|c: int|
                0 <= c < self.collections@.len() ==> self.owner_index(
                    (#[trigger] self.collections@[c]).owner_id@,
                ).contains(self.collections@[c].collection_id@),
            forall|o: Seq<char>| (#[trigger] self.owner_index(o)).no_duplicates(),
    {
        assert forall|o: Seq<char>| (#[trigger] self.owner_index(o)).no_duplicates() by {
            assert(self.owner_index(o) == other.owner_index(o));
        }
        assert forall|o: Seq<char>, m: int| 0 <= m < self.owner_index(o).len() implies registered_to(
            self.collections@,
            #[trigger] self.owner_index(o)[m],
            o,
        ) by {
            assert(self.owner_index(o) == other.owner_index(o));
            assert(registered_to(other.collections@, other.owner_index(o)[m], o));
        }
        assert forall|c: int| 0 <= c < self.collections@.len() implies self.owner_index(
            (#[trigger] self.collections@[c]).owner_id@,
        ).contains(self.collections@[c].collection_id@) by {
            assert(other.collections@[c] == self.collections@[c]);
            assert(self.owner_index(self.collections@[c].owner_id@) == other.owner_index(
                other.collections@[c].owner_id@,
            ));
        }
    }

    /// A new contract owned by `owner_id`, with no collections and no tokens.
    pub fn new(owner_id: String, marketplace_metadata: NFTContractMetadata) -> (r: Contract)
        ensures
            r.wf(),
            r.metadata == marketplace_metadata,
            r.owner_id == owner_id,
            r.payouts@.len() == 0,
            r.collections@.len() == 0,
            r.collections_by_owner_id@.len() == 0,
            r.tokens_by_collection_id@.len() == 0,
            r.total_minted == 0,
            r.total_collections == 0,
    {
        Contract {
            metadata: marketplace_metadata,
            owner_id,
            payouts: Vec::new(),
            collections: Vec::new(),
            collections_by_owner_id: Vec::new(),
            tokens_by_collection_id: Vec::new(),
            total_minted: 0,
            total_collections: 0,
        }
    }

    /// The position of the collection `id`, if it exists.
    pub(crate) fn find_collection(&self, id: &String) -> (r: Option<usize>)
        requires
            self.wf(),
        ensures
            match r {
                Some(c) => c < self.collections@.len() && self.collection_info(id@) == Some(
                    self.collections@[c as int],
                ) && self.collections@[c as int].collection_id@ == id@,
                None => self.collection_info(id@) is None,
            },
    {
        let mut c: usize = 0;
        while c < self.collections.len()
            invariant
                self.wf(),
                c <= self.collections@.len(),
                forall|d: int| 0 <= d < c ==> self.collections@[d].collection_id@ != id@,
            decreases self.collections@.len() - c,
        {
            if self.collections[c].collection_id == *id {
                proof {
                    self.lemma_collection_at(c as int);
                }
                return Some(c);
            }
            c = c + 1;
        }
        None
    }

    /// The collection `collection_id`, if it exists.
    pub fn get_collection_info(&self, collection_id: &String) -> (r: Option<CollectionMetadata>)
        requires
            self.wf(),
        ensures
            r == self.collection_info(collection_id@),
    {
        match self.find_collection(collection_id) {
            Some(c) => Some(self.collections[c].clone()),
            None => None,
        }
    }

    /// Advances the collection counter and returns its new value.
    fn next_collection(&mut self) -> (r: u128)
        requires
            old(self).total_collections < u128::MAX,
        ensures
            r == old(self).total_collections + 1,
            *final(self) == (Contract { total_collections: r, ..*old(self) }),
    {
        self.total_collections = self.total_collections + 1;
        self.total_collections
    }

    /// Advances the mint counter and returns its new value.
    pub(crate) fn next_token(&mut self) -> (r: u128)
        requires
            old(self).total_minted < u128::MAX,
        ensures
            r == old(self).total_minted + 1,
            *final(self) == (Contract { total_minted: r, ..*old(self) }),
    {
        self.total_minted = self.total_minted + 1;
        self.total_minted
    }

    /// Registers a collection owned by `owner_id` under the next collection
    /// identifier, and lists it under its owner.
    pub fn internal_create_collection(&mut self, metadata: CollectionMetadataJs, owner_id: String) -> (r:
        CollectionMetadata)
        requires
            old(self).wf(),
            old(self).total_collections < u128::MAX,
        ensures
            final(self).wf(),
            r.collection_id@ == collection_id_of((old(self).total_collections + 1) as nat),
            !old(self).has_collection(r.collection_id@),
            r.owner_id == owner_id,
            r.collection_contract == metadata.contract,
            r.title == metadata.title,
            r.desc == metadata.desc,
            r.media == metadata.media,
            r.reference == metadata.reference,
            final(self).total_collections == old(self).total_collections + 1,
            final(self).collections@ == old(self).collections@.push(r),
            forall|o: Seq<char>|
                #![trigger final(self).owner_index(o)]
                final(self).owner_index(o) == if o == owner_id@ {
                    old(self).owner_index(o).push(r.collection_id@)
                } else {
                    old(self).owner_index(o)
                },
            final(self).payouts == old(self).payouts,
            final(self).tokens_by_collection_id == old(self).tokens_by_collection_id,
            final(self).total_minted == old(self).total_minted,
            final(self).metadata == old(self).metadata,
            final(self).owner_id == old(self).owner_id,
    {
        let ghost pre = *self;
        let new_id = self.next_collection();
        let collection_id = collection_id_for(new_id);
        proof {
            // the defensive check of the registry: no collection holds the new identifier
            assert forall|c: int| 0 <= c < pre.collections@.len() implies #[trigger] pre.collections@[
                c
            ].collection_id@ != collection_id@ by {
                lemma_collection_ids_distinct((c + 1) as nat, new_id as nat);
            }
        }
        let meta = CollectionMetadata {
            collection_id: collection_id.clone(),
            collection_contract: metadata.contract,
            owner_id: owner_id.clone(),
            title: metadata.title,
            desc: metadata.desc,
            media: metadata.media,
            reference: metadata.reference,
        };
        let copy = meta.clone();
        assert(copy == meta);
        self.collections.push(copy);
        assert(self.collections@.last() == meta);
        assert(self.collections@.len() == pre.collections@.len() + 1);
        append_entry(&mut self.collections_by_owner_id, &owner_id, collection_id);
        proof {
            let colls = self.collections@;
            let n = pre.collections@.len() as int;
            assert(colls[n] == meta);
            assert forall|o: Seq<char>, m: int| 0 <= m < self.owner_index(o).len() implies registered_to(
                colls,
                #[trigger] self.owner_index(o)[m],
                o,
            ) by {
                if o == owner_id@ && m == pre.owner_index(o).len() {
                    assert(colls[n].collection_id@ == self.owner_index(o)[m]);
                } else {
                    assert(self.owner_index(o)[m] == pre.owner_index(o)[m]);
                    assert(registered_to(pre.collections@, pre.owner_index(o)[m], o));
                    let c = choose|c: int|
                        0 <= c < pre.collections@.len()
                            && #[trigger] pre.collections@[c].collection_id@ == pre.owner_index(o)[m]
                            && pre.collections@[c].owner_id@ == o;
                    assert(colls[c] == pre.collections@[c]);
                    assert(colls[c].collection_id@ == self.owner_index(o)[m]);
                }
            }
            assert forall|c: int| 0 <= c < colls.len() implies self.owner_index(
                (#[trigger] colls[c]).owner_id@,
            ).contains(colls[c].collection_id@) by {
                let o = colls[c].owner_id@;
                if c < n {
                    assert(colls[c] == pre.collections@[c]);
                    assert(pre.owner_index(o).contains(colls[c].collection_id@));
                    let m = choose|m: int|
                        0 <= m < pre.owner_index(o).len() && pre.owner_index(o)[m]
                            == colls[c].collection_id@;
                    assert(self.owner_index(o)[m] == colls[c].collection_id@);
                } else {
                    assert(self.owner_index(o)[pre.owner_index(o).len() as int] == colls[c].collection_id@);
                }
            }
            assert forall|o: Seq<char>| (#[trigger] self.owner_index(o)).no_duplicates() by {
                assert(pre.owner_index(o).no_duplicates());
                if o == owner_id@ {
                    let l = pre.owner_index(o);
                    assert forall|m: int| 0 <= m < l.len() implies l[m] != collection_id@ by {
                        assert(registered_to(pre.collections@, l[m], o));
                    }
                    assert(self.owner_index(o) == l.push(collection_id@));
                }
            }
            assert forall|c: int| 0 <= c < colls.len() implies (#[trigger] colls[c]).collection_id@
                == collection_id_of((c + 1) as nat) by {
                if c < n {
                    assert(colls[c] == pre.collections@[c]);
                }
            }
        }
        meta
    }

    /// Creates a collection owned by the caller.
    pub fn create_collection(&mut self, predecessor_id: String, metadata: CollectionMetadataJs) -> (r:
        CollectionMetadata)
        requires
            old(self).wf(),
            old(self).total_collections < u128::MAX,
        ensures
            final(self).wf(),
            r.owner_id == predecessor_id,
            r.collection_id@ == collection_id_of((old(self).total_collections + 1) as nat),
            !old(self).has_collection(r.collection_id@),
            r.collection_contract == metadata.contract,
            r.title == metadata.title,
            r.desc == metadata.desc,
            r.media == metadata.media,
            r.reference == metadata.reference,
            final(self).total_collections == old(self).total_collections + 1,
            final(self).collections@ == old(self).collections@.push(r),
            forall|o: Seq<char>|
                #![trigger final(self).owner_index(o)]
                final(self).owner_index(o) == if o == predecessor_id@ {
                    old(self).owner_index(o).push(r.collection_id@)
                } else {
                    old(self).owner_index(o)
                },
            final(self).payouts == old(self).payouts,
            final(self).tokens_by_collection_id == old(self).tokens_by_collection_id,
            final(self).total_minted == old(self).total_minted,
    {
        self.internal_create_collection(metadata, predecessor_id)
    }

    /// Creates a collection on behalf of `owner_id`; only the contract's own
    /// account may call it.
    pub fn add_collection(
        &mut self,
        predecessor_id: &String,
        current_account_id: &String,
        metadata: CollectionMetadataJs,
        owner_id: String,
    ) -> (r: Result<CollectionMetadata, ContractError>)
        requires
            old(self).wf(),
            old(self).total_collections < u128::MAX,
        ensures
            final(self).wf(),
            predecessor_id@ != current_account_id@ ==> r == Err::<CollectionMetadata, ContractError>(
                ContractError::Unauthorized,
            ) && *final(self) == *old(self),
            predecessor_id@ == current_account_id@ ==> r is Ok && r->Ok_0.owner_id == owner_id
                && r->Ok_0.collection_id@ == collection_id_of(
                (old(self).total_collections + 1) as nat,
            ) && !old(self).has_collection(r->Ok_0.collection_id@) && r->Ok_0.title
                == metadata.title && final(self).total_collections == old(
                self,
            ).total_collections + 1 && final(self).collections@ == old(self).collections@.push(
                r->Ok_0,
            ) && final(self).payouts == old(self).payouts && final(self).tokens_by_collection_id
                == old(self).tokens_by_collection_id && final(self).total_minted == old(
                self,
            ).total_minted,
    {
        if *predecessor_id != *current_account_id {
            return Err(ContractError::Unauthorized);
        }
        Ok(self.internal_create_collection(metadata, owner_id))
    }

    /// The metadata of the contract itself.
    pub fn nft_metadata(self) -> (r: NFTContractMetadata)
        ensures
            r == self.metadata,
    {
        self.metadata
    }

    /// Rebuilds the state from what the previous version stored. Only the
    /// contract's own account may call it, and only over a stored state.
    pub fn migrate(predecessor_id: &String, current_account_id: &String, prev_state: Option<
        PreviousState,
    >) -> (r: Result<Contract, ContractError>)
        ensures
            predecessor_id@ != current_account_id@ ==> r == Err::<Contract, ContractError>(
                ContractError::Unauthorized,
            ),
            predecessor_id@ == current_account_id@ && prev_state is None ==> r == Err::<
                Contract,
                ContractError,
            >(ContractError::NoPriorState),
            predecessor_id@ == current_account_id@ && prev_state is Some ==> {
                let p = prev_state->0;
                &&& r is Ok
                &&& r->Ok_0.metadata == p.metadata
                &&& r->Ok_0.owner_id == p.owner_id
                &&& r->Ok_0.payouts == p.payouts
                &&& r->Ok_0.collections == p.collections
                &&& r->Ok_0.collections_by_owner_id == p.collections_by_owner_id
                &&& r->Ok_0.tokens_by_collection_id == p.tokens_by_collection_id
                &&& r->Ok_0.total_minted == p.total_minted
                &&& r->Ok_0.total_collections == p.total_collections
                &&& r->Ok_0 == p.as_contract()
                &&& (p.as_contract().wf() ==> r->Ok_0.wf())
            },
    {
        if *predecessor_id != *current_account_id {
            return Err(ContractError::Unauthorized);
        }
        match prev_state {
            None => Err(ContractError::NoPriorState),
            Some(p) => Ok(
                Contract {
                    metadata: p.metadata,
                    owner_id: p.owner_id,
                    payouts: p.payouts,
                    collections: p.collections,
                    collections_by_owner_id: p.collections_by_owner_id,
                    tokens_by_collection_id: p.tokens_by_collection_id,
                    total_minted: p.total_minted,
                    total_collections: p.total_collections,
                },
            ),
        }
    }
}

} // verus!
