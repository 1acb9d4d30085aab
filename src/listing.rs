//! Listings: pages of a collection's tokens and of the collections, newest
//! first, and the collections of an owner.

use vstd::prelude::*;
use vstd::string::*;

use crate::collection::{CollectionData, CollectionMetadata, CollectionsBatch, page_has_next, page_of, page_window};
use crate::contract::{Contract, opt_view, registered_to};
use crate::error::ContractError;
use crate::ids::{count_string, decimal_of};
use crate::keyed::{find_key, lemma_lookup_absent, lemma_lookup_at};

verus! {

/// The originating-contract tag of the collections that listings show even
/// while they hold no token.
pub const LEGACY_CONTRACT_TAG: &'static str = "mjol.near";

/// The strings of `v`, as text.
pub open spec fn texts(v: Seq<String>) -> Seq<Seq<char>> {
    v.map_values(|x: String| x@)
}

/// The page of `list` at `offset`, newest first, and whether older items exist.
fn page_strings(list: &Vec<String>, limit: u64, offset: u64) -> (r: (Vec<String>, bool))
    ensures
        texts(r.0@) == page_of(texts(list@), limit as int, offset as int),
        r.1 == page_has_next(list@.len() as int, limit as int, offset as int),
{
    let mut out: Vec<String> = Vec::new();
    if offset as usize >= list.len() || offset > list.len() as u64 {
        assert(texts(out@) =~= page_of(texts(list@), limit as int, offset as int));
        return (out, false);
    }
    let (from, to) = page_window(list.len(), limit, offset);
    let mut k: usize = to;
    while k > from
        invariant
            from <= k <= to <= list@.len(),
            to == list@.len() - offset,
            out@.len() == to - k,
            forall|j: int| 0 <= j < out@.len() ==> out@[j]@ == list@[to - 1 - j]@,
        decreases k,
    {
        k = k - 1;
        out.push(list[k].clone());
    }
    assert(texts(out@) =~= page_of(texts(list@), limit as int, offset as int));
    (out, from > 0)
}

/// The page of `list` at `offset`, newest first, and whether older items exist.
fn page_collections(list: &Vec<CollectionMetadata>, limit: u64, offset: u64) -> (r: (
    Vec<CollectionMetadata>,
    bool,
))
    ensures
        r.0@ == page_of(list@, limit as int, offset as int),
        r.1 == page_has_next(list@.len() as int, limit as int, offset as int),
{
    let mut out: Vec<CollectionMetadata> = Vec::new();
    if offset as usize >= list.len() || offset > list.len() as u64 {
        assert(out@ =~= page_of(list@, limit as int, offset as int));
        return (out, false);
    }
    let (from, to) = page_window(list.len(), limit, offset);
    let mut k: usize = to;
    while k > from
        invariant
            from <= k <= to <= list@.len(),
            to == list@.len() - offset,
            out@.len() == to - k,
            forall|j: int| 0 <= j < out@.len() ==> out@[j] == list@[to - 1 - j],
        decreases k,
    {
        k = k - 1;
        out.push(list[k].clone());
    }
    assert(out@ =~= page_of(list@, limit as int, offset as int));
    (out, from > 0)
}

impl Contract {
    /// Whether listings that leave out empty collections show `c`: it holds
    /// a token, or it was created under the legacy tag.
    pub open spec fn shown(&self, c: CollectionMetadata) -> bool {
        self.collection_tokens(c.collection_id@).len() > 0 || opt_view(c.collection_contract) == Some(
            LEGACY_CONTRACT_TAG@,
        )
    }

    /// The collections of `s` that listings without empty ones show, in order.
    pub open spec fn shown_of(&self, s: Seq<CollectionMetadata>) -> Seq<CollectionMetadata>
        decreases s.len(),
    {
        if s.len() == 0 {
            seq![]
        } else if self.shown(s.last()) {
            self.shown_of(s.drop_last()).push(s.last())
        } else {
            self.shown_of(s.drop_last())
        }
    }

    /// The collections a listing pages through.
    pub open spec fn listed(&self, include_empty: bool) -> Seq<CollectionMetadata> {
        if include_empty {
            self.collections@
        } else {
            self.shown_of(self.collections@)
        }
    }

    /// The tokens listed for the collection `id`.
    pub(crate) fn tokens_of(&self, id: &String) -> (r: Option<usize>)
        ensures
            match r {
                Some(i) => i < self.tokens_by_collection_id@.len() && texts(
                    self.tokens_by_collection_id@[i as int].1@,
                ) == self.collection_tokens(id@),
                None => self.collection_tokens(id@) == Seq::<Seq<char>>::empty(),
            },
    {
        let found = find_key(&self.tokens_by_collection_id, id);
        proof {
            match found {
                Some(i) => {
                    lemma_lookup_at(self.tokens_by_collection_id@, id@, i as int);
                },
                None => {
                    lemma_lookup_absent(self.tokens_by_collection_id@, id@);
                },
            }
        }
        found
    }

    /// Whether listings that leave out empty collections show `c`.
    fn is_shown(&self, c: &CollectionMetadata) -> (r: bool)
        ensures
            r == self.shown(*c),
    {
        let has_tokens = match self.tokens_of(&c.collection_id) {
            Some(i) => self.tokens_by_collection_id[i].1.len() > 0,
            None => false,
        };
        if has_tokens {
            return true;
        }
        match &c.collection_contract {
            Some(tag) => {
                let legacy = String::from_str(LEGACY_CONTRACT_TAG);
                *tag == legacy
            },
            None => false,
        }
    }

    /// A page of the tokens of the collection `collection_id`, newest first:
    /// at most `limit` of them, skipping the `from` newest.
    pub fn get_nfts_from_collection(&self, collection_id: &String, limit: u64, from: u64) -> (r: Result<
        CollectionData,
        ContractError,
    >)
        requires
            self.wf(),
        ensures
            self.collection_info(collection_id@) is None ==> r == Err::<CollectionData, ContractError>(
                ContractError::CollectionNotFound,
            ),
            self.collection_info(collection_id@) is Some ==> {
                let tokens = self.collection_tokens(collection_id@);
                &&& r is Ok
                &&& texts(r->Ok_0.token_ids@) == page_of(tokens, limit as int, from as int)
                &&& r->Ok_0.has_next_batch == page_has_next(tokens.len() as int, limit as int, from as int)
                &&& r->Ok_0.total_count == tokens.len()
            },
    {
        if self.find_collection(collection_id).is_none() {
            return Err(ContractError::CollectionNotFound);
        }
        let empty: Vec<String> = Vec::new();
        let list = match self.tokens_of(collection_id) {
            Some(i) => &self.tokens_by_collection_id[i].1,
            None => &empty,
        };
        assert(texts(list@) == self.collection_tokens(collection_id@));
        let (token_ids, has_next_batch) = page_strings(list, limit, from);
        Ok(CollectionData { token_ids, has_next_batch, total_count: list.len() as u64 })
    }

    /// A page of the collections, newest first: at most `limit` of them,
    /// skipping the `from` newest; without `include_empty`, only those that
    /// hold a token or carry the legacy tag.
    pub fn get_collections(&self, limit: u64, from: u64, include_empty: bool) -> (r: CollectionsBatch)
        ensures
            r.collections@ == page_of(self.listed(include_empty), limit as int, from as int),
            r.has_next_batch == page_has_next(
                self.listed(include_empty).len() as int,
                limit as int,
                from as int,
            ),
            r.total_count == self.listed(include_empty).len(),
    {
        let mut listed: Vec<CollectionMetadata> = Vec::new();
        let mut i: usize = 0;
        while i < self.collections.len()
            invariant
                i <= self.collections@.len(),
                listed@ == if include_empty {
                    self.collections@.subrange(0, i as int)
                } else {
                    self.shown_of(self.collections@.subrange(0, i as int))
                },
            decreases self.collections@.len() - i,
        {
            let ghost prefix = self.collections@.subrange(0, i as int);
            assert(self.collections@.subrange(0, i + 1).drop_last() =~= prefix);
            assert(self.collections@.subrange(0, i + 1) =~= prefix.push(self.collections@[i as int]));
            if include_empty || self.is_shown(&self.collections[i]) {
                listed.push(self.collections[i].clone());
            }
            i = i + 1;
        }
        assert(self.collections@.subrange(0, self.collections@.len() as int) =~= self.collections@);
        let (collections, has_next_batch) = page_collections(&listed, limit, from);
        CollectionsBatch { collections, has_next_batch, total_count: listed.len() as u64 }
    }

    /// The collections listed for `owner_id` in the owner index.
    pub fn get_collections_by_owner_id(&self, owner_id: &String) -> (r: Vec<CollectionMetadata>)
        requires
            self.wf(),
        ensures
            r@.len() == self.owner_index(owner_id@).len(),
            forall|m: int|
                0 <= m < r@.len() ==> Some(#[trigger] r@[m]) == self.collection_info(
                    self.owner_index(owner_id@)[m],
                ) && r@[m].owner_id@ == owner_id@ && r@[m].collection_id@ == self.owner_index(
                    owner_id@,
                )[m],
            r@.no_duplicates(),
            forall|c: int|
                0 <= c < self.collections@.len() && (#[trigger] self.collections@[c]).owner_id@
                    == owner_id@ ==> r@.contains(self.collections@[c]),
    {
        let mut out: Vec<CollectionMetadata> = Vec::new();
        match find_key(&self.collections_by_owner_id, owner_id) {
            None => {
                proof {
                    lemma_lookup_absent(self.collections_by_owner_id@, owner_id@);
                }
            },
            Some(i) => {
                proof {
                    lemma_lookup_at(self.collections_by_owner_id@, owner_id@, i as int);
                }
                let ids = &self.collections_by_owner_id[i].1;
                let mut m: usize = 0;
                while m < ids.len()
                    invariant
                        self.wf(),
                        i < self.collections_by_owner_id@.len(),
                        *ids == self.collections_by_owner_id@[i as int].1,
                        self.collections_by_owner_id@[i as int].0@ == owner_id@,
                        texts(ids@) == self.owner_index(owner_id@),
                        m <= ids@.len(),
                        out@.len() == m,
                        forall|j: int|
                            0 <= j < m ==> Some(#[trigger] out@[j]) == self.collection_info(
                                self.owner_index(owner_id@)[j],
                            ) && out@[j].owner_id@ == owner_id@ && out@[j].collection_id@
                                == self.owner_index(owner_id@)[j],
                    decreases ids@.len() - m,
                {
                    let ghost id = ids@[m as int]@;
                    assert(texts(ids@)[m as int] == id);
                    assert(registered_to(self.collections@, self.owner_index(owner_id@)[m as int], owner_id@));
                    let ghost c = choose|c: int|
                        0 <= c < self.collections@.len()
                            && #[trigger] self.collections@[c].collection_id@ == id
                            && self.collections@[c].owner_id@ == owner_id@;
                    proof {
                        self.lemma_collection_at(c);
                        assert(texts(ids@)[m as int] == id);
                    }
                    match self.find_collection(&ids[m]) {
                        Some(c) => {
                            out.push(self.collections[c].clone());
                        },
                        None => {},
                    }
                    m = m + 1;
                }
            },
        }
        proof {
            assert(self.owner_index(owner_id@).no_duplicates());
            assert forall|a: int, b: int| 0 <= a < out@.len() && 0 <= b < out@.len() && a != b implies out@[a]
                != out@[b] by {
                assert(self.owner_index(owner_id@)[a] != self.owner_index(owner_id@)[b]);
            }
            assert forall|c: int|
                0 <= c < self.collections@.len() && (#[trigger] self.collections@[c]).owner_id@
                    == owner_id@ implies out@.contains(self.collections@[c]) by {
                let id = self.collections@[c].collection_id@;
                assert(self.owner_index(owner_id@).contains(id));
                let m = choose|m: int|
                    0 <= m < self.owner_index(owner_id@).len() && self.owner_index(owner_id@)[m] == id;
                self.lemma_collection_at(c);
                assert(Some(out@[m]) == self.collection_info(self.owner_index(owner_id@)[m]));
            }
        }
        out
    }

    /// How many tokens the collection `collection_id` holds, in decimal.
    pub fn nft_collection_supply(&self, collection_id: &String) -> (r: String)
        ensures
            r@ == decimal_of(self.collection_tokens(collection_id@).len()),
    {
        match self.tokens_of(collection_id) {
            Some(i) => count_string(self.tokens_by_collection_id[i].1.len() as u64),
            None => count_string(0),
        }
    }
}

/// The first page of `k` items of a sequence `t1..tN` is `tN, tN-1, ...`,
/// `min(k, N)` of them, with more to come exactly when `N > k`; the page
/// at offset `N` is empty and the last one.
pub proof fn lemma_first_page<T>(s: Seq<T>, k: nat)
    ensures
        page_of(s, k as int, 0).len() == if k < s.len() {
            k
        } else {
            s.len()
        },
        forall|i: int|
            0 <= i < page_of(s, k as int, 0).len() ==> #[trigger] page_of(s, k as int, 0)[i] == s[s.len()
                - 1 - i],
        page_has_next(s.len() as int, k as int, 0) == (s.len() > k),
        page_of(s, k as int, s.len() as int) == Seq::<T>::empty(),
        !page_has_next(s.len() as int, k as int, s.len() as int),
{
    assert(page_of(s, k as int, s.len() as int) =~= Seq::<T>::empty());
}

} // verus!
