use near_contract_standards::non_fungible_token::metadata::NFTContractMetadata;
use nft_collections::contract::PreviousState;
use nft_collections::royalty::{compute_payout, payout_part_from_balance, validate_royalties};
use nft_collections::{
    CollectionMetadataJs, Contract, ContractError, MintedToken, Payout, TokenMetadata,
};

fn contract_metadata() -> NFTContractMetadata {
    NFTContractMetadata {
        spec: "nft-1.0.0".to_string(),
        name: "Market".to_string(),
        symbol: "MKT".to_string(),
        icon: None,
        base_uri: None,
        reference: None,
        reference_hash: None,
    }
}

fn new_contract() -> Contract {
    Contract::new("owner.near".to_string(), contract_metadata())
}

fn collection_input(title: &str, contract: Option<&str>) -> CollectionMetadataJs {
    CollectionMetadataJs {
        title: title.to_string(),
        desc: "desc".to_string(),
        media: "media".to_string(),
        reference: None,
        custom_collection_id: None,
        contract: contract.map(|c| c.to_string()),
    }
}

fn token_meta(title: Option<&str>, copies: Option<u64>) -> TokenMetadata {
    TokenMetadata {
        title: title.map(|t| t.to_string()),
        description: Some("about".to_string()),
        media: None,
        media_hash: None,
        copies,
        issued_at: None,
        expires_at: None,
        starts_at: None,
        updated_at: None,
        extra: None,
        reference: None,
        reference_hash: None,
    }
}

fn royalties(entries: &[(&str, u128)]) -> Payout {
    Payout { payout: entries.iter().map(|(a, v)| (a.to_string(), *v)).collect() }
}

fn ids(minted: &[MintedToken]) -> Vec<String> {
    minted.iter().map(|t| t.token_id.clone()).collect()
}

fn amount(p: &Payout, account: &str) -> Option<u128> {
    p.payout.iter().find(|e| e.0 == account).map(|e| e.1)
}

fn s(v: &str) -> String {
    v.to_string()
}

#[test]
fn collections_are_numbered_in_order() {
    let mut c = new_contract();
    let a = c.create_collection(s("alice.near"), collection_input("First", None));
    let b = c.create_collection(s("bob.near"), collection_input("Second", None));
    let d = c.create_collection(s("alice.near"), collection_input("Third", None));
    assert_eq!(a.collection_id, "collection-1");
    assert_eq!(b.collection_id, "collection-2");
    assert_eq!(d.collection_id, "collection-3");
    assert_eq!(a.owner_id, "alice.near");
    assert_eq!(c.total_collections, 3);
    let mine = c.get_collections_by_owner_id(&s("alice.near"));
    let mine_ids: Vec<String> = mine.iter().map(|m| m.collection_id.clone()).collect();
    assert_eq!(mine_ids, vec![s("collection-1"), s("collection-3")]);
    assert!(c.get_collections_by_owner_id(&s("carol.near")).is_empty());
    let bobs = c.get_collections_by_owner_id(&s("bob.near"));
    assert_eq!(bobs.len(), 1);
    assert_eq!(bobs[0].collection_id, "collection-2");
    let info = c.get_collection_info(&s("collection-2")).unwrap();
    assert_eq!(info.title, "Second");
    assert!(c.get_collection_info(&s("collection-9")).is_none());
}

#[test]
fn add_collection_only_for_the_contract_account() {
    let mut c = new_contract();
    let refused = c.add_collection(&s("alice.near"), &s("market.near"), collection_input("X", None), s("bob.near"));
    assert_eq!(refused.err(), Some(ContractError::Unauthorized));
    assert_eq!(c.total_collections, 0);
    let made = c
        .add_collection(&s("market.near"), &s("market.near"), collection_input("X", None), s("bob.near"))
        .unwrap();
    assert_eq!(made.owner_id, "bob.near");
    assert_eq!(made.collection_id, "collection-1");
}

#[test]
fn single_mint_uses_the_base_identifier() {
    let mut c = new_contract();
    let minted = c
        .nft_mint(&s("minter.near"), s("holder.near"), token_meta(Some("Art"), None), None, None)
        .unwrap();
    assert_eq!(ids(&minted), vec![s("token-1")]);
    assert_eq!(minted[0].owner_id, "holder.near");
    assert_eq!(minted[0].metadata.title, Some(s("Art")));
    assert_eq!(minted[0].refund_id, Some(s("minter.near")));
    let again = c
        .nft_mint(&s("minter.near"), s("holder.near"), token_meta(Some("Art"), Some(1)), None, None)
        .unwrap();
    assert_eq!(ids(&again), vec![s("token-2")]);
    assert_eq!(c.total_minted, 2);
}

#[test]
fn three_copies_get_numbered_ids_titles_and_royalties() {
    let mut c = new_contract();
    let minted = c
        .nft_mint(
            &s("minter.near"),
            s("holder.near"),
            token_meta(Some("Art"), Some(3)),
            Some(royalties(&[("b.near", 500)])),
            None,
        )
        .unwrap();
    assert_eq!(ids(&minted), vec![s("token-1-1"), s("token-1-2"), s("token-1-3")]);
    let titles: Vec<Option<String>> = minted.iter().map(|t| t.metadata.title.clone()).collect();
    assert_eq!(titles, vec![Some(s("Art #1")), Some(s("Art #2")), Some(s("Art #3"))]);
    let refunds: Vec<Option<String>> = minted.iter().map(|t| t.refund_id.clone()).collect();
    assert_eq!(refunds, vec![None, Some(s("minter.near")), None]);
    for id in ["token-1-1", "token-1-2", "token-1-3"] {
        let r = c.nft_royalties(&s(id), 10).unwrap();
        assert_eq!(r.payout, vec![(s("b.near"), 500)]);
    }
    assert_eq!(c.nft_royalties(&s("token-1"), 10).unwrap().payout, vec![]);
    assert_eq!(c.total_minted, 1);
}

#[test]
fn zero_copies_mint_nothing() {
    let mut c = new_contract();
    let minted = c
        .nft_mint(&s("minter.near"), s("holder.near"), token_meta(Some("Art"), Some(0)), None, None)
        .unwrap();
    assert!(minted.is_empty());
    assert_eq!(c.total_minted, 1);
}

#[test]
fn mint_into_collection_lists_the_token_and_marks_it() {
    let mut c = new_contract();
    c.create_collection(s("alice.near"), collection_input("Cats", None));
    let minted = c
        .nft_mint(
            &s("alice.near"),
            s("holder.near"),
            token_meta(Some("Tom"), None),
            None,
            Some(s("collection-1")),
        )
        .unwrap();
    assert_eq!(ids(&minted), vec![s("token-1")]);
    assert_eq!(
        minted[0].metadata.extra,
        Some(s("{\"collection_id\":\"collection-1\",\"title\":\"Cats\"}"))
    );
    assert_eq!(c.nft_collection_supply(&s("collection-1")), "1");
    assert_eq!(c.nft_collection_supply(&s("collection-7")), "0");
}

#[test]
fn several_copies_in_a_collection_are_refused() {
    let mut c = new_contract();
    c.create_collection(s("alice.near"), collection_input("Cats", None));
    let r = c.nft_mint(
        &s("alice.near"),
        s("holder.near"),
        token_meta(Some("Tom"), Some(2)),
        None,
        Some(s("collection-1")),
    );
    assert_eq!(r.err(), Some(ContractError::MultipleCopiesInCollection));
    assert_eq!(c.total_minted, 0);
}

#[test]
fn mint_into_someone_elses_collection_is_refused() {
    let mut c = new_contract();
    c.create_collection(s("alice.near"), collection_input("Cats", None));
    let r = c.nft_mint(
        &s("mallory.near"),
        s("holder.near"),
        token_meta(Some("Tom"), None),
        None,
        Some(s("collection-1")),
    );
    assert_eq!(r.err(), Some(ContractError::Unauthorized));
    assert_eq!(c.total_minted, 0);
    assert_eq!(c.nft_collection_supply(&s("collection-1")), "0");
    let next = c
        .nft_mint(&s("alice.near"), s("holder.near"), token_meta(Some("Tom"), None), None, Some(s("collection-1")))
        .unwrap();
    assert_eq!(ids(&next), vec![s("token-1")]);
}

#[test]
fn mint_into_missing_collection_is_refused() {
    let mut c = new_contract();
    let r = c.nft_mint(&s("alice.near"), s("holder.near"), token_meta(Some("Tom"), None), None, Some(s("collection-1")));
    assert_eq!(r.err(), Some(ContractError::CollectionNotFound));
}

#[test]
fn invalid_royalties_are_refused_and_nothing_changes() {
    let mut c = new_contract();
    let long: Vec<(String, u128)> = (0..11).map(|i| (format!("acc{}.near", i), 1)).collect();
    let cases = vec![
        (Payout { payout: long }, ContractError::RoyaltyTooLong),
        (royalties(&[("a.near", 6000), ("b.near", 4000)]), ContractError::RoyaltyTooLarge),
        (royalties(&[("Bad!", 100)]), ContractError::InvalidRoyaltyAccount),
        (royalties(&[("a..near", 100)]), ContractError::InvalidRoyaltyAccount),
    ];
    for (p, e) in cases {
        let r = c.nft_mint(&s("m.near"), s("h.near"), token_meta(Some("T"), None), Some(p), None);
        assert_eq!(r.err(), Some(e));
        assert_eq!(c.total_minted, 0);
        assert!(c.payouts.is_empty());
    }
    let ok = c.nft_mint(
        &s("m.near"),
        s("h.near"),
        token_meta(Some("T"), None),
        Some(royalties(&[("a.near", 6000), ("b.near", 3999)])),
        None,
    );
    assert!(ok.is_ok());
}

#[test]
fn mint_without_title_is_refused() {
    let mut c = new_contract();
    let r = c.nft_mint(&s("m.near"), s("h.near"), token_meta(None, None), None, None);
    assert_eq!(r.err(), Some(ContractError::MissingTitle));
    assert_eq!(c.total_minted, 0);
}

#[test]
fn validation_checks_length_then_sum_then_accounts() {
    assert_eq!(validate_royalties(&royalties(&[])), Ok(()));
    assert_eq!(validate_royalties(&royalties(&[("x", 10000)])), Err(ContractError::RoyaltyTooLarge));
    assert_eq!(validate_royalties(&royalties(&[("x", 1)])), Err(ContractError::InvalidRoyaltyAccount));
    assert_eq!(validate_royalties(&royalties(&[("x.near", u128::MAX), ("y.near", 2)])), Err(ContractError::RoyaltyTooLarge));
    assert_eq!(validate_royalties(&royalties(&[("alice_b-c.near", 9999)])), Ok(()));
    assert_eq!(
        validate_royalties(&royalties(&[("a.near", 100), ("b.near", 1), ("a.near", 200)])),
        Err(ContractError::DuplicateRoyaltyAccount)
    );
    assert_eq!(
        validate_royalties(&royalties(&[("a.near", 100), ("b..near", 1), ("a.near", 200)])),
        Err(ContractError::InvalidRoyaltyAccount)
    );
}

fn minted_collection(n: usize) -> (Contract, Vec<String>) {
    let mut c = new_contract();
    c.create_collection(s("alice.near"), collection_input("Cats", None));
    let mut all = vec![];
    for _ in 0..n {
        let m = c
            .nft_mint(&s("alice.near"), s("h.near"), token_meta(Some("T"), None), None, Some(s("collection-1")))
            .unwrap();
        all.push(m[0].token_id.clone());
    }
    (c, all)
}

#[test]
fn collection_pages_run_newest_first() {
    let (c, t) = minted_collection(5);
    let first = c.get_nfts_from_collection(&s("collection-1"), 2, 0).unwrap();
    assert_eq!(first.token_ids, vec![t[4].clone(), t[3].clone()]);
    assert!(first.has_next_batch);
    assert_eq!(first.total_count, 5);
    let last = c.get_nfts_from_collection(&s("collection-1"), 2, 4).unwrap();
    assert_eq!(last.token_ids, vec![t[0].clone()]);
    assert!(!last.has_next_batch);
    let all = c.get_nfts_from_collection(&s("collection-1"), 10, 0).unwrap();
    assert_eq!(all.token_ids, vec![t[4].clone(), t[3].clone(), t[2].clone(), t[1].clone(), t[0].clone()]);
    assert!(!all.has_next_batch);
}

#[test]
fn collection_page_edges() {
    let (c, _) = minted_collection(3);
    let end = c.get_nfts_from_collection(&s("collection-1"), 2, 3).unwrap();
    assert!(end.token_ids.is_empty());
    assert!(!end.has_next_batch);
    assert_eq!(end.total_count, 3);
    let zero = c.get_nfts_from_collection(&s("collection-1"), 0, 1).unwrap();
    assert!(zero.token_ids.is_empty());
    assert!(zero.has_next_batch);
    let exact = c.get_nfts_from_collection(&s("collection-1"), 3, 0).unwrap();
    assert_eq!(exact.token_ids.len(), 3);
    assert!(!exact.has_next_batch);
    assert_eq!(c.get_nfts_from_collection(&s("collection-2"), 1, 0).err(), Some(ContractError::CollectionNotFound));
    let mut d = new_contract();
    d.create_collection(s("alice.near"), collection_input("Empty", None));
    let empty = d.get_nfts_from_collection(&s("collection-1"), 5, 0).unwrap();
    assert!(empty.token_ids.is_empty());
    assert_eq!(empty.total_count, 0);
}

#[test]
fn collection_listing_hides_empty_untagged_collections() {
    let mut c = new_contract();
    c.create_collection(s("alice.near"), collection_input("Empty", None));
    c.create_collection(s("alice.near"), collection_input("Legacy", Some("mjol.near")));
    c.create_collection(s("alice.near"), collection_input("Full", Some("other.near")));
    c.nft_mint(&s("alice.near"), s("h.near"), token_meta(Some("T"), None), None, Some(s("collection-3")))
        .unwrap();
    let all = c.get_collections(10, 0, true);
    let all_ids: Vec<String> = all.collections.iter().map(|m| m.collection_id.clone()).collect();
    assert_eq!(all_ids, vec![s("collection-3"), s("collection-2"), s("collection-1")]);
    assert_eq!(all.total_count, 3);
    let shown = c.get_collections(10, 0, false);
    let shown_ids: Vec<String> = shown.collections.iter().map(|m| m.collection_id.clone()).collect();
    assert_eq!(shown_ids, vec![s("collection-3"), s("collection-2")]);
    assert_eq!(shown.total_count, 2);
    let page = c.get_collections(1, 1, true);
    assert_eq!(page.collections[0].collection_id, "collection-2");
    assert!(page.has_next_batch);
    let past = c.get_collections(1, 3, true);
    assert!(past.collections.is_empty());
    assert!(!past.has_next_batch);
}

#[test]
fn end_to_end_collection_mint_and_payout() {
    let mut c = new_contract();
    c.create_collection(s("a.near"), collection_input("C", None));
    c.nft_mint(
        &s("a.near"),
        s("a.near"),
        token_meta(Some("T"), None),
        Some(royalties(&[("b.near", 500)])),
        Some(s("collection-1")),
    )
    .unwrap();
    let p = c.nft_payout(&s("token-1"), Some(s("a.near")), 1000, 10).unwrap();
    assert_eq!(p.payout.len(), 2);
    assert_eq!(amount(&p, "b.near"), Some(50));
    assert_eq!(amount(&p, "a.near"), Some(950));
}

#[test]
fn payout_skips_the_owner_in_the_record() {
    let r = royalties(&[("a.near", 1000), ("b.near", 500)]);
    let p = compute_payout(&r, &s("a.near"), 1000, 10).unwrap();
    assert_eq!(p.payout, vec![(s("b.near"), 50), (s("a.near"), 950)]);
}

#[test]
fn payout_rounding_rests_with_the_owner() {
    let r = royalties(&[("b.near", 1)]);
    let p = compute_payout(&r, &s("a.near"), 1, 10).unwrap();
    assert_eq!(p.payout, vec![(s("b.near"), 0), (s("a.near"), 0)]);
    let q = compute_payout(&royalties(&[("b.near", 3333), ("c.near", 3333)]), &s("a.near"), 100, 10).unwrap();
    assert_eq!(q.payout, vec![(s("b.near"), 33), (s("c.near"), 33), (s("a.near"), 33)]);
    let total: u128 = q.payout.iter().map(|e| e.1).sum();
    assert!(total <= 100);
}

#[test]
fn payout_errors() {
    let c = new_contract();
    assert_eq!(c.nft_payout(&s("token-1"), None, 1000, 10).err(), Some(ContractError::TokenNotFound));
    let r = royalties(&[("b.near", 500), ("c.near", 500)]);
    assert_eq!(compute_payout(&r, &s("a.near"), 1000, 1).err(), Some(ContractError::PayoutTooLong));
    assert!(compute_payout(&r, &s("b.near"), 1000, 1).is_ok());
    let big = royalties(&[("b.near", 9000), ("c.near", 1000)]);
    assert_eq!(compute_payout(&big, &s("a.near"), 1000, 10).err(), Some(ContractError::RoyaltyTooLarge));
    let empty = c.nft_payout(&s("token-1"), Some(s("a.near")), 1000, 0).unwrap();
    assert_eq!(empty.payout, vec![(s("a.near"), 1000)]);
}

#[test]
fn transfer_payout_needs_one_unit_of_deposit() {
    let c = new_contract();
    assert_eq!(
        c.nft_transfer_payout(0, &s("token-1"), Some(s("a.near")), 1000, 10).err(),
        Some(ContractError::MissingDeposit)
    );
    assert_eq!(
        c.nft_transfer_payout(2, &s("token-1"), Some(s("a.near")), 1000, 10).err(),
        Some(ContractError::MissingDeposit)
    );
    let p = c.nft_transfer_payout(1, &s("token-1"), Some(s("a.near")), 1000, 10).unwrap();
    assert_eq!(p.payout, vec![(s("a.near"), 1000)]);
}

#[test]
fn payout_parts_are_exact_for_large_balances() {
    assert_eq!(payout_part_from_balance(500, 1000), 50);
    assert_eq!(payout_part_from_balance(10000, 7), 7);
    assert_eq!(payout_part_from_balance(0, 7), 0);
    assert_eq!(payout_part_from_balance(5000, u128::MAX), u128::MAX / 2);
    assert_eq!(payout_part_from_balance(1, 9999), 0);
    assert_eq!(payout_part_from_balance(20000, 1), 2);
    assert_eq!(payout_part_from_balance(30000, 7), 21);
}

#[test]
fn royalties_query_respects_its_length_bound() {
    let mut c = new_contract();
    c.nft_mint(
        &s("m.near"),
        s("h.near"),
        token_meta(Some("T"), None),
        Some(royalties(&[("b.near", 100), ("c.near", 200)])),
        None,
    )
    .unwrap();
    assert_eq!(c.nft_royalties(&s("token-1"), 1).err(), Some(ContractError::PayoutTooLong));
    assert_eq!(c.nft_royalties(&s("token-1"), 2).unwrap().payout.len(), 2);
    assert!(c.nft_royalties(&s("token-9"), 0).unwrap().payout.is_empty());
}

#[test]
fn migrate_keeps_every_record() {
    let (c, _) = minted_collection(2);
    let Contract {
        metadata,
        owner_id,
        payouts,
        collections,
        collections_by_owner_id,
        tokens_by_collection_id,
        total_minted,
        total_collections,
    } = c;
    let prev = PreviousState {
        metadata,
        owner_id,
        payouts,
        collections,
        collections_by_owner_id,
        tokens_by_collection_id,
        total_minted,
        total_collections,
    };
    let m = Contract::migrate(&s("market.near"), &s("market.near"), Some(prev)).unwrap();
    assert_eq!(m.total_minted, 2);
    assert_eq!(m.total_collections, 1);
    assert_eq!(m.nft_collection_supply(&s("collection-1")), "2");
    assert_eq!(m.get_collection_info(&s("collection-1")).unwrap().title, "Cats");
    assert_eq!(m.owner_id, "owner.near");
    assert_eq!(m.nft_metadata(), contract_metadata());
}

#[test]
fn migrate_needs_the_contract_account_and_a_prior_state() {
    assert_eq!(
        Contract::migrate(&s("alice.near"), &s("market.near"), None).err(),
        Some(ContractError::Unauthorized)
    );
    assert_eq!(
        Contract::migrate(&s("market.near"), &s("market.near"), None).err(),
        Some(ContractError::NoPriorState)
    );
}

#[test]
fn zero_copies_into_a_collection_are_refused() {
    let mut c = new_contract();
    c.create_collection(s("alice.near"), collection_input("Cats", None));
    let r = c.nft_mint(&s("alice.near"), s("h.near"), token_meta(Some("T"), Some(0)), None, Some(s("collection-1")));
    assert_eq!(r.err(), Some(ContractError::MultipleCopiesInCollection));
    assert_eq!(c.total_minted, 0);
    assert_eq!(c.nft_collection_supply(&s("collection-1")), "0");
}

#[test]
fn minted_ids_never_repeat() {
    let mut c = new_contract();
    let mut seen: Vec<String> = vec![];
    for copies in [None, Some(2), Some(1), Some(11), None, Some(3)] {
        let minted = c
            .nft_mint(&s("m.near"), s("h.near"), token_meta(Some("T"), copies), None, None)
            .unwrap();
        for t in minted {
            assert!(!seen.contains(&t.token_id), "{} handed out twice", t.token_id);
            seen.push(t.token_id);
        }
    }
    assert_eq!(seen.len(), 1 + 2 + 1 + 11 + 1 + 3);
    assert!(seen.contains(&s("token-4-11")));
    assert!(seen.contains(&s("token-4-1")));
    let mut cols: Vec<String> = vec![];
    for i in 0..12 {
        let m = c.create_collection(format!("o{}.near", i % 3), collection_input("C", None));
        assert!(!cols.contains(&m.collection_id));
        cols.push(m.collection_id);
    }
    assert_eq!(cols[11], "collection-12");
}
