use nft::approvals::{bytes_for_approved_account_id, released_storage_bytes};
use nft::contract::{Contract, NftError, TokenMetadata, NFTContractMetadata, TokenRecord, NFT_METADATA_SPEC};

const MINT_STORAGE_COST: u128 = 5870000000000000000000;

fn accounts(i: usize) -> String {
    ["alice", "bob", "charlie", "danny", "eugene", "fargo"][i].to_string()
}

fn sample_token_metadata() -> TokenMetadata {
    TokenMetadata {
        title: Some("Olympus Mons".into()),
        description: Some("The tallest mountain in the charted solar system".into()),
        media: None,
        media_hash: None,
        copies: Some(1u64),
        issued_at: None,
        expires_at: None,
        starts_at: None,
        updated_at: None,
        reference: None,
        reference_hash: None,
    }
}

fn contract_metadata() -> NFTContractMetadata {
    NFTContractMetadata {
        spec: NFT_METADATA_SPEC.to_string(),
        name: "Test collection".to_string(),
        symbol: "TEST".to_string(),
        icon: None,
        base_uri: None,
        reference: None,
        reference_hash: None,
    }
}

fn sample_contract() -> Contract {
    Contract::new(accounts(0), contract_metadata(), sample_token_metadata(), MINT_STORAGE_COST, None).unwrap()
}

fn with_supply(cap: u64, price: u128, royalties: Option<Vec<(String, u32)>>) -> Contract {
    let mut meta = sample_token_metadata();
    meta.copies = Some(cap);
    Contract::new(accounts(0), contract_metadata(), meta, price, royalties).unwrap()
}

#[test]
fn test_new() {
    let contract = Contract::new_default_meta(accounts(1));
    assert!(contract.nft_token(1).is_none());
    assert_eq!(contract.tokens_left(), 100);
}

#[test]
fn test_mint() {
    let mut contract = Contract::new_default_meta(accounts(0));
    let price = contract.minting_price;
    let token = contract.nft_buy(accounts(0), price, None).unwrap().token;
    assert_eq!(token.token_id, 1);
    assert_eq!(token.owner_id, accounts(0));
    assert!(!token.redeemed);
}

#[test]
fn test_transfer() {
    let mut contract = sample_contract();
    let token = contract.nft_buy(accounts(0), MINT_STORAGE_COST, None).unwrap().token;
    let token_id = token.token_id;
    contract.nft_transfer(&accounts(0), &accounts(1), token_id, None, None).unwrap();
    if let Some(token) = contract.nft_token(token_id) {
        assert_eq!(token.token_id, token_id);
        assert_eq!(token.owner_id.to_string(), accounts(1).to_string());
        assert_eq!(token.metadata, sample_token_metadata());
        assert_eq!(token.approved_account_ids, Vec::new());
    } else {
        panic!("token not correctly created, or not found by nft_token");
    }
}

#[test]
fn test_approve() {
    let mut contract = sample_contract();
    let token_id = contract.nft_buy(accounts(0), MINT_STORAGE_COST, None).unwrap().token.token_id;
    // alice approves bob
    assert_eq!(contract.nft_approve(&accounts(0), token_id, &accounts(1)), Ok(1));
    assert!(contract.nft_is_approved(token_id, &accounts(1), Some(1)));
}

#[test]
fn test_revoke() {
    let mut contract = sample_contract();
    let token_id = contract.nft_buy(accounts(0), MINT_STORAGE_COST, None).unwrap().token.token_id;
    // alice approves bob
    contract.nft_approve(&accounts(0), token_id, &accounts(1)).unwrap();
    // alice revokes bob
    contract.nft_revoke(&accounts(0), token_id, &accounts(1)).unwrap();
    assert!(!contract.nft_is_approved(token_id, &accounts(1), None));
}

#[test]
fn test_revoke_all() {
    let mut contract = sample_contract();
    let token_id = contract.nft_buy(accounts(0), MINT_STORAGE_COST, None).unwrap().token.token_id;
    // alice approves bob
    contract.nft_approve(&accounts(0), token_id, &accounts(1)).unwrap();
    // alice revokes bob
    contract.nft_revoke_all(&accounts(0), token_id).unwrap();
    assert!(!contract.nft_is_approved(token_id, &accounts(1), Some(1)));
}

#[test]
fn mint_sequence_sells_out() {
    let mut contract = with_supply(2, 100, None);
    let a = contract.nft_buy("A".to_string(), 100, None).unwrap().token;
    assert_eq!(a.token_id, 1);
    assert_eq!(a.owner_id, "A");
    assert!(!a.redeemed);
    let b = contract.nft_buy("B".to_string(), 100, None).unwrap().token;
    assert_eq!(b.token_id, 2);
    assert_eq!(b.owner_id, "B");
    assert_eq!(contract.nft_buy("C".to_string(), 100, None).unwrap_err(), NftError::SoldOut);
    assert_eq!(contract.tokens_left(), 0);
}

#[test]
fn sold_out_regardless_of_payment() {
    let mut contract = with_supply(1, 100, None);
    contract.nft_buy("A".to_string(), 100, None).unwrap().token;
    assert_eq!(contract.nft_buy("B".to_string(), 0, None).unwrap_err(), NftError::SoldOut);
    assert_eq!(contract.nft_buy("B".to_string(), 1000, None).unwrap_err(), NftError::SoldOut);
}

#[test]
fn minted_ids_are_fresh() {
    let mut contract = with_supply(5, 1, None);
    let mut seen: Vec<u64> = Vec::new();
    for i in 0..5 {
        let t = contract.nft_buy(accounts(i), 1, None).unwrap().token;
        assert!(!seen.contains(&t.token_id));
        seen.push(t.token_id);
    }
    assert_eq!(seen, vec![1, 2, 3, 4, 5]);
}

#[test]
fn underpaid_mint_is_refused() {
    let mut contract = with_supply(2, 100, None);
    assert_eq!(contract.nft_buy("A".to_string(), 99, None).unwrap_err(), NftError::InsufficientPayment);
    assert_eq!(contract.minted_tokens, 0);
    assert!(contract.nft_token(1).is_none());
}

#[test]
fn mint_to_named_receiver() {
    let mut contract = with_supply(2, 100, None);
    let t = contract.nft_buy("A".to_string(), 150, Some("R".to_string())).unwrap().token;
    assert_eq!(t.owner_id, "R");
    assert_eq!(contract.nft_token(1).unwrap().owner_id, "R");
}

#[test]
fn transfer_invalidates_approvals() {
    let mut contract = with_supply(2, 1, None);
    contract.nft_buy("O".to_string(), 1, None).unwrap().token;
    assert_eq!(contract.nft_approve(&"O".to_string(), 1, &"D".to_string()), Ok(1));
    assert!(contract.nft_is_approved(1, &"D".to_string(), Some(1)));
    contract.nft_transfer(&"O".to_string(), &"P".to_string(), 1, None, None).unwrap();
    assert!(!contract.nft_is_approved(1, &"D".to_string(), Some(1)));
    assert!(!contract.nft_is_approved(1, &"D".to_string(), None));
    assert_eq!(contract.nft_token(1).unwrap().owner_id, "P");
}

#[test]
fn reapproval_gets_larger_id() {
    let mut contract = with_supply(1, 1, None);
    contract.nft_buy("O".to_string(), 1, None).unwrap().token;
    assert_eq!(contract.nft_approve(&"O".to_string(), 1, &"D".to_string()), Ok(1));
    assert_eq!(contract.nft_approve(&"O".to_string(), 1, &"E".to_string()), Ok(2));
    assert_eq!(contract.nft_approve(&"O".to_string(), 1, &"D".to_string()), Ok(3));
    assert!(!contract.nft_is_approved(1, &"D".to_string(), Some(1)));
    assert!(contract.nft_is_approved(1, &"D".to_string(), Some(3)));
    assert!(contract.nft_is_approved(1, &"E".to_string(), Some(2)));
    assert_eq!(contract.nft_token(1).unwrap().approved_account_ids.len(), 2);
}

#[test]
fn approved_delegate_transfers() {
    let mut contract = with_supply(1, 1, None);
    contract.nft_buy("O".to_string(), 1, None).unwrap().token;
    contract.nft_approve(&"O".to_string(), 1, &"D".to_string()).unwrap();
    assert_eq!(
        contract.nft_transfer(&"D".to_string(), &"P".to_string(), 1, Some(7), None),
        Err(NftError::NotOwnerOrApproved)
    );
    assert_eq!(contract.nft_token(1).unwrap().owner_id, "O");
    let (prev, approvals) = contract.internal_transfer(&"D".to_string(), &"P".to_string(), 1, Some(1)).unwrap();
    assert_eq!(prev, "O");
    assert_eq!(approvals, vec![("D".to_string(), 1)]);
    assert_eq!(contract.nft_token(1).unwrap().owner_id, "P");
}

#[test]
fn transfer_errors() {
    let mut contract = with_supply(1, 1, None);
    contract.nft_buy("O".to_string(), 1, None).unwrap().token;
    assert_eq!(
        contract.nft_transfer(&"O".to_string(), &"P".to_string(), 2, None, None),
        Err(NftError::TokenNotFound)
    );
    assert_eq!(
        contract.nft_transfer(&"X".to_string(), &"P".to_string(), 1, None, None),
        Err(NftError::NotOwnerOrApproved)
    );
    assert_eq!(
        contract.nft_transfer(&"O".to_string(), &"O".to_string(), 1, None, None),
        Err(NftError::SameOwner)
    );
    assert_eq!(contract.nft_token(1).unwrap().owner_id, "O");
}

#[test]
fn approval_needs_owner() {
    let mut contract = with_supply(1, 1, None);
    contract.nft_buy("O".to_string(), 1, None).unwrap().token;
    assert_eq!(contract.nft_approve(&"X".to_string(), 1, &"D".to_string()), Err(NftError::NotOwner));
    assert_eq!(contract.nft_approve(&"O".to_string(), 3, &"D".to_string()), Err(NftError::TokenNotFound));
    assert_eq!(contract.nft_revoke(&"X".to_string(), 1, &"D".to_string()), Err(NftError::NotOwner));
    assert_eq!(contract.nft_revoke_all(&"X".to_string(), 1), Err(NftError::NotOwner));
    assert!(!contract.nft_is_approved(1, &"D".to_string(), None));
    assert!(!contract.nft_is_approved(9, &"D".to_string(), None));
}

#[test]
fn approval_counter_exhausted() {
    let mut contract = with_supply(1, 1, None);
    contract.nft_buy("O".to_string(), 1, None).unwrap().token;
    let rec: &mut TokenRecord = &mut contract.tokens[0];
    rec.next_approval_id = u64::MAX;
    assert_eq!(
        contract.nft_approve(&"O".to_string(), 1, &"D".to_string()),
        Err(NftError::InvariantViolation)
    );
}

#[test]
fn redeem_once() {
    let mut contract = with_supply(1, 1, None);
    contract.nft_buy("O".to_string(), 1, None).unwrap().token;
    assert_eq!(contract.redeem_nft(&"X".to_string(), 1).unwrap_err(), NftError::NotOwner);
    assert_eq!(contract.redeem_nft(&"O".to_string(), 2).unwrap_err(), NftError::TokenNotFound);
    let t = contract.redeem_nft(&"O".to_string(), 1).unwrap();
    assert!(t.redeemed);
    assert_eq!(t.owner_id, "O");
    assert_eq!(contract.redeem_nft(&"O".to_string(), 1).unwrap_err(), NftError::AlreadyRedeemed);
    assert!(contract.nft_token(1).unwrap().redeemed);
}

#[test]
fn redeemed_survives_transfer() {
    let mut contract = with_supply(1, 1, None);
    contract.nft_buy("O".to_string(), 1, None).unwrap().token;
    contract.redeem_nft(&"O".to_string(), 1).unwrap();
    contract.nft_transfer(&"O".to_string(), &"P".to_string(), 1, None, None).unwrap();
    assert!(contract.nft_token(1).unwrap().redeemed);
    assert_eq!(contract.redeem_nft(&"P".to_string(), 1).unwrap_err(), NftError::AlreadyRedeemed);
}

#[test]
fn storage_of_released_approvals() {
    assert_eq!(bytes_for_approved_account_id(&"alice".to_string()), 17);
    assert_eq!(released_storage_bytes(&Vec::new()), Some(0));
    let approvals = vec![("bob".to_string(), 1u64), ("charlie".to_string(), 2u64)];
    assert_eq!(released_storage_bytes(&approvals), Some(34));
}

#[test]
fn purchase_reports_price_and_refund() {
    let mut contract = with_supply(2, 100, None);
    let p = contract.nft_buy("A".to_string(), 130, None).unwrap();
    assert_eq!(p.price_charged, 100);
    assert_eq!(p.refund, 30);
    let q = contract.nft_buy("B".to_string(), 100, None).unwrap();
    assert_eq!(q.refund, 0);
}

#[test]
fn minted_token_carries_template_metadata() {
    let mut contract = sample_contract();
    let t = contract.nft_buy(accounts(0), MINT_STORAGE_COST, None).unwrap().token;
    assert_eq!(t.metadata, sample_token_metadata());
    assert_eq!(contract.tokens[0].next_approval_id, 1);
    assert_eq!(contract.nft_token(1).unwrap().metadata, sample_token_metadata());
}

#[test]
fn default_collection_metadata() {
    let contract = Contract::new_default_meta(accounts(0));
    let m = contract.nft_metadata();
    assert_eq!(m.spec, "nft-1.0.0");
    assert_eq!(m.name, "Example NEAR non-fungible token");
    assert_eq!(m.symbol, "EXAMPLE");
    assert!(m.icon.unwrap().starts_with("data:image/svg+xml"));
    assert_eq!(m.base_uri, None);
    assert_eq!(m.reference, None);
    let t = &contract.token_metadata;
    assert_eq!(t.title.as_deref(), Some("Ticket to paradise"));
    assert_eq!(t.description, None);
    assert_eq!(t.copies, Some(100));
    assert!(t.media.as_deref().unwrap().starts_with("https://ipfs.io/ipfs/"));
    assert_eq!(contract.minting_price, 1_000_000_000_000_000_000_000_000);
    assert!(contract.perpetual_royalties.is_empty());
}

#[test]
fn royalty_table_above_whole_is_refused() {
    let r = Contract::new(
        accounts(0),
        contract_metadata(),
        sample_token_metadata(),
        1,
        Some(vec![("R".to_string(), 6000), ("S".to_string(), 4001)]),
    );
    assert_eq!(r.err(), Some(NftError::InvariantViolation));
    let ok = Contract::new(
        accounts(0),
        contract_metadata(),
        sample_token_metadata(),
        1,
        Some(vec![("R".to_string(), 6000), ("S".to_string(), 4000)]),
    );
    assert!(ok.is_ok());
}

#[test]
fn redeemed_token_matches_lookup() {
    let mut contract = sample_contract();
    contract.nft_buy(accounts(0), MINT_STORAGE_COST, None).unwrap();
    let t = contract.redeem_nft(&accounts(0), 1).unwrap();
    let again = contract.nft_token(1).unwrap();
    assert_eq!(t.metadata, again.metadata);
    assert_eq!(t.owner_id, again.owner_id);
    assert!(again.redeemed);
}

#[test]
fn enumeration_by_owner_and_page() {
    let mut contract = with_supply(5, 1, None);
    contract.nft_buy("A".to_string(), 1, None).unwrap();
    contract.nft_buy("B".to_string(), 1, None).unwrap();
    contract.nft_buy("A".to_string(), 1, None).unwrap();
    assert_eq!(contract.nft_total_supply(), 3);
    assert_eq!(contract.nft_tokens_for_owner(&"A".to_string()), vec![1, 3]);
    assert_eq!(contract.nft_supply_for_owner(&"A".to_string()), 2);
    assert_eq!(contract.nft_supply_for_owner(&"Z".to_string()), 0);
    assert_eq!(contract.nft_token_ids(0, 10), vec![1, 2, 3]);
    assert_eq!(contract.nft_token_ids(1, 1), vec![2]);
    assert_eq!(contract.nft_token_ids(3, 5), Vec::<u64>::new());
}
