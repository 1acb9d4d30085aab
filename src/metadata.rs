use vstd::prelude::*;
use vstd::string::*;

use crate::collection::clone_opt;

verus! {

/// Metadata of one token.
pub struct TokenMetadata {
    pub title: Option<String>,
    pub description: Option<String>,
    pub media: Option<String>,
    pub media_hash: Option<Vec<u8>>,
    /// How many copies one mint makes; none means one.
    pub copies: Option<u64>,
    pub issued_at: Option<String>,
    pub expires_at: Option<String>,
    pub starts_at: Option<String>,
    pub updated_at: Option<String>,
    pub extra: Option<String>,
    pub reference: Option<String>,
    pub reference_hash: Option<Vec<u8>>,
}

/// `a` and `b` agree on every field but the title and the extra data.
pub open spec fn agree_but_title_extra(a: TokenMetadata, b: TokenMetadata) -> bool {
    &&& a.description == b.description
    &&& a.media == b.media
    &&& bytes_view(a.media_hash) == bytes_view(b.media_hash)
    &&& a.copies == b.copies
    &&& a.issued_at == b.issued_at
    &&& a.expires_at == b.expires_at
    &&& a.starts_at == b.starts_at
    &&& a.updated_at == b.updated_at
    &&& a.reference == b.reference
    &&& bytes_view(a.reference_hash) == bytes_view(b.reference_hash)
}

/// The bytes of an optional byte vector.
pub open spec fn bytes_view(b: Option<Vec<u8>>) -> Option<Seq<u8>> {
    match b {
        Some(v) => Some(v@),
        None => None,
    }
}

fn clone_bytes(b: &Option<Vec<u8>>) -> (r: Option<Vec<u8>>)
    ensures
        bytes_view(r) == bytes_view(*b),
{
    match b {
        Some(v) => {
            let mut c: Vec<u8> = Vec::new();
            let mut i: usize = 0;
            while i < v.len()
                invariant
                    i <= v@.len(),
                    c@ == v@.subrange(0, i as int),
                decreases v@.len() - i,
            {
                c.push(v[i]);
                i = i + 1;
                assert(c@ =~= v@.subrange(0, i as int));
            }
            assert(c@ =~= v@);
            Some(c)
        },
        None => None,
    }
}

impl TokenMetadata {
    /// A copy with the given title and extra data.
    pub fn with_title_extra(&self, title: Option<String>, extra: Option<String>) -> (r: Self)
        ensures
            agree_but_title_extra(r, *self),
            r.title == title,
            r.extra == extra,
    {
        TokenMetadata {
            title,
            description: clone_opt(&self.description),
            media: clone_opt(&self.media),
            media_hash: clone_bytes(&self.media_hash),
            copies: self.copies,
            issued_at: clone_opt(&self.issued_at),
            expires_at: clone_opt(&self.expires_at),
            starts_at: clone_opt(&self.starts_at),
            updated_at: clone_opt(&self.updated_at),
            extra,
            reference: clone_opt(&self.reference),
            reference_hash: clone_bytes(&self.reference_hash),
        }
    }
}

/// A token to create in the ledger: its identifier, owner and metadata,
/// and the account that gets back what its storage did not use, if any.
pub struct MintedToken {
    pub token_id: String,
    pub owner_id: String,
    pub metadata: TokenMetadata,
    pub refund_id: Option<String>,
}

} // verus!

verus! {

/// The text of a JSON object with the given members, each a name and a
/// string value.
pub uninterp spec fn json_object_of(fields: Seq<(Seq<char>, Seq<char>)>) -> Seq<char>;

/// Relies on serde_json, through near_sdk::serde_json: a `Value::Object` of
/// string members written out with `to_string`.
#[verifier::external_body]
fn json_object(fields: &Vec<(String, String)>) -> (r: String)
    ensures
        r@ == json_object_of(fields@.map_values(|f: (String, String)| (f.0@, f.1@))),
{
    let object: near_sdk::serde_json::Map<String, near_sdk::serde_json::Value> = fields.iter().map(
        |f| (f.0.clone(), near_sdk::serde_json::Value::String(f.1.clone())),
    ).collect();
    near_sdk::serde_json::Value::Object(object).to_string()
}

/// The extra data of a token minted into a collection: a JSON object that
/// names the collection and its title.
pub open spec fn collection_extra_of(collection_id: Seq<char>, title: Seq<char>) -> Seq<char> {
    json_object_of(seq![("collection_id"@, collection_id), ("title"@, title)])
}

pub fn collection_extra(collection_id: &String, title: &String) -> (r: String)
    ensures
        r@ == collection_extra_of(collection_id@, title@),
{
    let fields = vec![
        (String::from_str("collection_id"), collection_id.clone()),
        (String::from_str("title"), title.clone()),
    ];
    let r = json_object(&fields);
    assert(fields@.map_values(|f: (String, String)| (f.0@, f.1@)) =~= seq![
        ("collection_id"@, collection_id@),
        ("title"@, title@),
    ]);
    r
}

} // verus!
