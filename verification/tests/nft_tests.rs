use base_nft::ledger::Simple_NFT;
use base_nft::types::AccountId;
use base_nft::types::Error;
use base_nft::MATEDATA_INIT;
use base_nft::TOKENID_INIT;

fn alice() -> AccountId {
    AccountId { id: 1 }
}

fn bob() -> AccountId {
    AccountId { id: 2 }
}

fn eve() -> AccountId {
    AccountId { id: 3 }
}

#[test]
fn init_works() {
    // Create a new contract instance.
    let nft_token = Simple_NFT::new(alice()).unwrap();
    // Token 1 does not exist.
    assert_eq!(nft_token.owner_of(1), None);
    // Alice owns tokens.
    assert_eq!(nft_token.balance_of(alice()), 10);
    let mut i: u32 = 0;
    while i < 10 {
        assert_eq!(nft_token.owner_of(TOKENID_INIT + i), Some(alice()));
        i += 1;
    }
}

#[test]
fn transfer_works() {
    // Create a new contract instance.
    let mut nft_token = Simple_NFT::new(alice()).unwrap();
    let token_id = TOKENID_INIT + 0;
    // Alice owns all tokens.
    assert_eq!(nft_token.balance_of(alice()), 10);
    // Bob does not own any token.
    assert_eq!(nft_token.balance_of(bob()), 0);
    // Alice owns the token.
    assert_eq!(nft_token.owner_of(token_id), Some(alice()));
    // No transfer notification has been recorded yet.
    assert_eq!(0, nft_token.transfer_count());
    // Alice transfers the token to Bob.
    assert_eq!(nft_token.transfer(alice(), bob(), token_id), Ok(()));
    // One transfer notification has been recorded.
    assert_eq!(1, nft_token.transfer_count());
    // Bob owns the token.
    assert_eq!(nft_token.owner_of(token_id), Some(bob()));
    // Bob owns one token.
    assert_eq!(nft_token.balance_of(bob()), 1);
    assert_eq!(nft_token.balance_of(alice()), 9);
}

#[test]
fn invalid_transfer_should_fail() {
    // Create a new contract instance.
    let mut nft_token = Simple_NFT::new(alice()).unwrap();
    let token_id = TOKENID_INIT + 0;
    // Alice owns the token.
    assert_eq!(nft_token.owner_of(token_id), Some(alice()));

    // Token 2 does not exist.
    assert_eq!(nft_token.owner_of(2), None);
    // Transferring a token fails if it does not exist.
    assert_eq!(nft_token.transfer(alice(), bob(), 2), Err(Error::TokenNotFound));

    // Bob cannot transfer tokens he does not own.
    assert_eq!(nft_token.transfer(bob(), eve(), token_id), Err(Error::NotAllowed));
}

#[test]
fn approved_transfer_works() {
    // Create a new contract instance.
    let mut nft_token = Simple_NFT::new(alice()).unwrap();
    let token_id = TOKENID_INIT + 0;
    // Alice has all tokens (10).
    assert_eq!(nft_token.balance_of(alice()), 10);
    // The token is owned by Alice.
    assert_eq!(nft_token.owner_of(token_id), Some(alice()));
    // Approve the token's transfer for Bob on behalf of Alice.
    assert_eq!(nft_token.approve(alice(), bob(), token_id), Ok(()));
    // Bob transfers the token from Alice to Eve.
    assert_eq!(nft_token.transfer_from(bob(), alice(), eve(), token_id), Ok(()));
    // The token is owned by Eve.
    assert_eq!(nft_token.owner_of(token_id), Some(eve()));
    // Alice has 9 tokens.
    assert_eq!(nft_token.balance_of(alice()), 9);
    // Bob does not own tokens.
    assert_eq!(nft_token.balance_of(bob()), 0);
    // Eve owns 1 token.
    assert_eq!(nft_token.balance_of(eve()), 1);
}

#[test]
fn construction_by_null_identity_fails() {
    assert_eq!(
        Simple_NFT::new(AccountId::null()).map(|_| ()),
        Err(Error::NotAllowed)
    );
}

#[test]
fn metadata_is_assigned_sequentially() {
    let nft = Simple_NFT::new(alice()).unwrap();
    let mut i: u32 = 0;
    while i < 10 {
        assert_eq!(nft.metadata_of(TOKENID_INIT + i), Some(MATEDATA_INIT + i));
        i += 1;
    }
    assert_eq!(nft.metadata_of(1), None);
    assert_eq!(nft.metadata_of(TOKENID_INIT + 10), None);
}

#[test]
fn metadata_survives_transfer() {
    let mut nft = Simple_NFT::new(alice()).unwrap();
    let token_id = TOKENID_INIT + 3;
    assert_eq!(nft.transfer(alice(), bob(), token_id), Ok(()));
    assert_eq!(nft.metadata_of(token_id), Some(MATEDATA_INIT + 3));
}

#[test]
fn null_destination_is_rejected() {
    let mut nft = Simple_NFT::new(alice()).unwrap();
    let token_id = TOKENID_INIT + 0;
    assert_eq!(
        nft.transfer(alice(), AccountId::null(), token_id),
        Err(Error::NotAllowed)
    );
    // Nothing moved.
    assert_eq!(nft.owner_of(token_id), Some(alice()));
    assert_eq!(nft.balance_of(alice()), 10);
    assert_eq!(nft.transfer_count(), 0);
}

#[test]
fn null_delegate_is_rejected() {
    let mut nft = Simple_NFT::new(alice()).unwrap();
    let token_id = TOKENID_INIT + 0;
    assert_eq!(
        nft.approve(alice(), AccountId::null(), token_id),
        Err(Error::NotAllowed)
    );
    assert_eq!(nft.get_approved(token_id), None);
}

#[test]
fn add_token_to_null_owner_is_rejected() {
    let mut nft = Simple_NFT::new(alice()).unwrap();
    assert_eq!(nft.add_token_to(AccountId::null(), 500), Err(Error::NotAllowed));
    assert_eq!(nft.owner_of(500), None);
}

#[test]
fn add_existing_token_is_rejected() {
    let mut nft = Simple_NFT::new(alice()).unwrap();
    assert_eq!(
        nft.add_token_to(bob(), TOKENID_INIT + 0),
        Err(Error::TokenExists)
    );
    assert_eq!(nft.owner_of(TOKENID_INIT + 0), Some(alice()));
}

#[test]
fn remove_and_add_move_a_token() {
    let mut nft = Simple_NFT::new(alice()).unwrap();
    let token_id = TOKENID_INIT + 5;
    assert_eq!(nft.remove_token_from(alice(), token_id), Ok(()));
    assert_eq!(nft.owner_of(token_id), None);
    assert_eq!(nft.balance_of(alice()), 9);
    // Removing again fails: the token has no owner entry.
    assert_eq!(
        nft.remove_token_from(alice(), token_id),
        Err(Error::TokenNotFound)
    );
    assert_eq!(nft.add_token_to(bob(), token_id), Ok(()));
    assert_eq!(nft.owner_of(token_id), Some(bob()));
    assert_eq!(nft.balance_of(bob()), 1);
}

#[test]
fn remove_from_wrong_owner_is_rejected() {
    let mut nft = Simple_NFT::new(alice()).unwrap();
    let token_id = TOKENID_INIT + 0;
    assert_eq!(
        nft.remove_token_from(bob(), token_id),
        Err(Error::TokenNotFound)
    );
    assert_eq!(nft.owner_of(token_id), Some(alice()));
    assert_eq!(nft.balance_of(alice()), 10);
}

#[test]
fn unapproved_transfer_from_fails() {
    let mut nft = Simple_NFT::new(alice()).unwrap();
    let token_id = TOKENID_INIT + 0;
    assert_eq!(
        nft.transfer_from(bob(), alice(), eve(), token_id),
        Err(Error::NotApproved)
    );
    assert_eq!(nft.owner_of(token_id), Some(alice()));
    assert_eq!(nft.balance_of(eve()), 0);
}

#[test]
fn delegated_transfer_with_wrong_source_fails() {
    let mut nft = Simple_NFT::new(alice()).unwrap();
    let token_id = TOKENID_INIT + 0;
    assert_eq!(nft.approve(alice(), bob(), token_id), Ok(()));
    // The recorded owner is Alice, not Eve: nothing to remove from Eve.
    assert_eq!(
        nft.transfer_from(bob(), eve(), bob(), token_id),
        Err(Error::TokenNotFound)
    );
    assert_eq!(nft.owner_of(token_id), Some(alice()));
    // The approval survived the failed call.
    assert_eq!(nft.get_approved(token_id), Some(bob()));
}

#[test]
fn last_grant_wins() {
    let mut nft = Simple_NFT::new(alice()).unwrap();
    let token_id = TOKENID_INIT + 0;
    assert_eq!(nft.approve(alice(), bob(), token_id), Ok(()));
    assert_eq!(nft.get_approved(token_id), Some(bob()));
    assert_eq!(nft.approve(alice(), eve(), token_id), Ok(()));
    assert_eq!(nft.get_approved(token_id), Some(eve()));
    assert!(nft.is_approved(token_id, eve()));
    assert!(!nft.is_approved(token_id, bob()));
    assert_eq!(nft.approval_count(), 2);
}

#[test]
fn only_the_owner_may_approve() {
    let mut nft = Simple_NFT::new(alice()).unwrap();
    let token_id = TOKENID_INIT + 0;
    assert_eq!(nft.approve(bob(), eve(), token_id), Err(Error::NotAllowed));
    // A token that does not exist has no owner to approve for.
    assert_eq!(nft.approve(alice(), bob(), 7), Err(Error::NotAllowed));
    assert_eq!(nft.get_approved(token_id), None);
}

#[test]
fn transfer_clears_the_approval() {
    let mut nft = Simple_NFT::new(alice()).unwrap();
    let token_id = TOKENID_INIT + 0;
    assert_eq!(nft.approve(alice(), bob(), token_id), Ok(()));
    assert_eq!(nft.transfer_from(bob(), alice(), eve(), token_id), Ok(()));
    // The new owner starts with no delegate.
    assert_eq!(nft.get_approved(token_id), None);
    assert!(!nft.is_approved(token_id, bob()));
    // Bob is neither owner nor delegate under Eve: a direct transfer
    // attempt by Bob fails.
    assert_eq!(nft.transfer(bob(), alice(), token_id), Err(Error::NotAllowed));
    assert_eq!(nft.owner_of(token_id), Some(eve()));
}

#[test]
fn clear_approval_is_idempotent() {
    let mut nft = Simple_NFT::new(alice()).unwrap();
    let token_id = TOKENID_INIT + 0;
    // Nothing to clear: still a success.
    assert_eq!(nft.clear_approval(token_id), Ok(()));
    // Clearing a token that does not exist is also a success.
    assert_eq!(nft.clear_approval(9), Ok(()));
    assert_eq!(nft.approve(alice(), bob(), token_id), Ok(()));
    assert_eq!(nft.clear_approval(token_id), Ok(()));
    assert_eq!(nft.get_approved(token_id), None);
}

#[test]
fn is_approved_rejects_the_null_identity() {
    let mut nft = Simple_NFT::new(alice()).unwrap();
    let token_id = TOKENID_INIT + 0;
    assert!(!nft.is_approved(token_id, AccountId::null()));
    assert_eq!(nft.approve(alice(), bob(), token_id), Ok(()));
    assert!(!nft.is_approved(token_id, AccountId::null()));
    // A token with no owner has no delegate.
    assert!(!nft.is_approved(4, bob()));
}

#[test]
fn notifications_carry_the_transfer_details() {
    let mut nft = Simple_NFT::new(alice()).unwrap();
    let token_id = TOKENID_INIT + 1;
    assert_eq!(nft.approve(alice(), bob(), token_id), Ok(()));
    let granted = nft.approval_at(0);
    assert_eq!(granted.from, alice());
    assert_eq!(granted.to, bob());
    assert_eq!(granted.id, token_id);
    assert_eq!(nft.transfer(alice(), bob(), token_id), Ok(()));
    let moved = nft.transfer_at(0);
    assert_eq!(moved.from, Some(alice()));
    assert_eq!(moved.to, Some(bob()));
    assert_eq!(moved.id, token_id);
}

#[test]
fn failed_transfer_leaves_state_unchanged() {
    let mut nft = Simple_NFT::new(alice()).unwrap();
    let token_id = TOKENID_INIT + 0;
    assert_eq!(nft.approve(alice(), eve(), token_id), Ok(()));
    // Bob holds no approval: the delegated call fails and nothing moves.
    assert_eq!(
        nft.transfer_from(bob(), alice(), bob(), token_id),
        Err(Error::NotApproved)
    );
    assert_eq!(nft.owner_of(token_id), Some(alice()));
    assert_eq!(nft.balance_of(alice()), 10);
    assert_eq!(nft.balance_of(bob()), 0);
    assert_eq!(nft.get_approved(token_id), Some(eve()));
    assert_eq!(nft.transfer_count(), 0);
}

#[test]
fn token_exists_tracks_ownership() {
    let mut nft = Simple_NFT::new(alice()).unwrap();
    let token_id = TOKENID_INIT + 0;
    assert!(nft.token_exists(token_id));
    assert!(!nft.token_exists(1));
    assert_eq!(nft.remove_token_from(alice(), token_id), Ok(()));
    assert!(!nft.token_exists(token_id));
}

#[test]
fn self_transfer_keeps_the_balance() {
    let mut nft = Simple_NFT::new(alice()).unwrap();
    let token_id = TOKENID_INIT + 2;
    assert_eq!(nft.transfer(alice(), alice(), token_id), Ok(()));
    assert_eq!(nft.owner_of(token_id), Some(alice()));
    assert_eq!(nft.balance_of(alice()), 10);
    assert_eq!(nft.transfer_count(), 1);
}
