use vstd::prelude::*;

verus! {

/// What a caller gives to create a collection.
pub struct CollectionMetadataJs {
    pub title: String,
    pub desc: String,
    pub media: String,
    pub reference: Option<String>,
    /// An identifier the caller proposes; collections are always numbered
    /// by the contract, so it is not used.
    pub custom_collection_id: Option<String>,
    /// The front-end the collection is created through, if it says.
    pub contract: Option<String>,
}

/// A registered collection. Never changed after it is created.
pub struct CollectionMetadata {
    pub collection_id: String,
    pub collection_contract: Option<String>,
    pub owner_id: String,
    pub title: String,
    pub desc: String,
    pub media: String,
    pub reference: Option<String>,
}

/// A copy of an optional string.
pub fn clone_opt(s: &Option<String>) -> (r: Option<String>)
    ensures
        r == *s,
{
    match s {
        Some(v) => Some(v.clone()),
        None => None,
    }
}

impl Clone for CollectionMetadata {
    fn clone(&self) -> (r: Self)
        ensures
            r == *self,
    {
        CollectionMetadata {
            collection_id: self.collection_id.clone(),
            collection_contract: clone_opt(&self.collection_contract),
            owner_id: self.owner_id.clone(),
            title: self.title.clone(),
            desc: self.desc.clone(),
            media: self.media.clone(),
            reference: clone_opt(&self.reference),
        }
    }
}

/// A page of the tokens of a collection, newest first.
pub struct CollectionData {
    /// Identifiers of the tokens on the page.
    pub token_ids: Vec<String>,
    /// Whether older tokens exist beyond this page.
    pub has_next_batch: bool,
    /// How many tokens the collection holds in all.
    pub total_count: u64,
}

/// A page of collections, newest first.
pub struct CollectionsBatch {
    pub collections: Vec<CollectionMetadata>,
    pub has_next_batch: bool,
    pub total_count: u64,
}

/// A token of another contract that front-ends may list beside this one's.
pub struct WhitelistedToken {
    pub token_id: String,
    pub contract_id: String,
    pub collection_id: String,
    pub title: String,
    pub descripton: String,
    pub media: String,
    pub reference: String,
}

/// The page at `offset` of at most `limit` items of `s`, counted from the
/// end: the window `[from, to)` with `to = |s| - offset` and
/// `from = max(to - limit, 0)`, last item first.
pub open spec fn page_of<T>(s: Seq<T>, limit: int, offset: int) -> Seq<T> {
    if offset >= s.len() {
        seq![]
    } else {
        let to = s.len() - offset;
        let from = if to - limit > 0 {
            to - limit
        } else {
            0
        };
        Seq::new((to - from) as nat, |k: int| s[to - 1 - k])
    }
}

/// Whether items older than the page at `offset` exist.
pub open spec fn page_has_next(len: int, limit: int, offset: int) -> bool {
    offset < len && len - offset - limit > 0
}

/// The bounds `[from, to)` of the page at `offset` of at most `limit` items
/// out of `size`, counted from the end.
pub fn page_window(size: usize, limit: u64, offset: u64) -> (r: (usize, usize))
    requires
        offset < size,
    ensures
        r.1 == size - offset,
        r.0 == if r.1 - limit > 0 {
            r.1 - limit
        } else {
            0
        },
        r.0 <= r.1 <= size,
{
    let to = size - offset as usize;
    let from = if (to as u64) > limit {
        to - limit as usize
    } else {
        0
    };
    (from, to)
}

} // verus!
