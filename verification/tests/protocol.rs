//! End-to-end behavior of the two services, driven through their public API
//! with the real address derivation linked in.

use whitelist_counter::addr::Address;
use whitelist_counter::counter::CounterService;
use whitelist_counter::errors::CounterError;
use whitelist_counter::whitelist::WhitelistService;

fn addr(b: u8) -> Address {
    Address::new([b; 32])
}

fn services() -> (CounterService, WhitelistService) {
    (CounterService::new(addr(1)), WhitelistService::new(addr(2)))
}

fn make_counter(cs: &mut CounterService, owner: &Address) -> Address {
    let (expected, bump) = cs.derive_counter_address(owner).unwrap();
    let id = cs.create_counter(owner, bump).unwrap();
    assert_eq!(id, expected);
    id
}

#[test]
fn create_counter_starts_at_zero_and_unlinked() {
    let (mut cs, _) = services();
    let owner = addr(10);
    let id = make_counter(&mut cs, &owner);
    let rec = cs.counter_record(&id).unwrap();
    assert_eq!(rec.count, 0);
    assert_eq!(rec.authority, owner);
    assert!(rec.whitelist.is_none());
}

#[test]
fn create_then_increment_fails_not_initialized() {
    let (mut cs, wl) = services();
    let owner = addr(10);
    let wallet = addr(30);
    let id = make_counter(&mut cs, &owner);
    let r = cs.update_counter(&wl, &id, &wallet, &owner);
    assert_eq!(r, Err(CounterError::NotInitialized));
    assert_eq!(cs.counter_record(&id).unwrap().count, 0);
}

#[test]
fn link_delegates_controller_to_counter_not_owner() {
    let (mut cs, mut wl) = services();
    let owner = addr(10);
    let wl_acct = addr(20);
    let id = make_counter(&mut cs, &owner);
    cs.create_counter_whitelist(&mut wl, &id, &owner, &wl_acct).unwrap();
    let cfg = wl.config_record(&wl_acct).unwrap();
    assert_eq!(cfg.authority, id);
    assert_ne!(cfg.authority, owner);
    assert_eq!(cfg.counter, 0);
    let rec = cs.counter_record(&id).unwrap();
    assert_eq!(rec.whitelist, Some(wl_acct));
}

#[test]
fn relink_fails_already_linked() {
    let (mut cs, mut wl) = services();
    let owner = addr(10);
    let id = make_counter(&mut cs, &owner);
    cs.create_counter_whitelist(&mut wl, &id, &owner, &addr(20)).unwrap();
    let r = cs.create_counter_whitelist(&mut wl, &id, &owner, &addr(21));
    assert_eq!(r, Err(CounterError::AlreadyLinked));
}

#[test]
fn create_counter_twice_fails_record_exists() {
    let (mut cs, _) = services();
    let owner = addr(10);
    let (_, bump) = cs.derive_counter_address(&owner).unwrap();
    cs.create_counter(&owner, bump).unwrap();
    let r = cs.create_counter(&owner, bump);
    assert!(matches!(r, Err(CounterError::RecordExists)));
}

#[test]
fn create_counter_with_wrong_bump_fails_derivation_mismatch() {
    let (mut cs, _) = services();
    let owner = addr(10);
    let (_, bump) = cs.derive_counter_address(&owner).unwrap();
    let wrong = if bump == 0 { 1 } else { bump - 1 };
    let r = cs.create_counter(&owner, wrong);
    assert!(matches!(r, Err(CounterError::AddressDerivationMismatch)));
}

#[test]
fn derivation_is_deterministic_and_not_the_key_itself() {
    let (cs, wl) = services();
    let owner = addr(10);
    let first = cs.derive_counter_address(&owner).unwrap();
    let second = cs.derive_counter_address(&owner).unwrap();
    assert_eq!(first, second);
    assert_ne!(first.0, owner);
    let m1 = wl.derive_wallet_address(&addr(20), &addr(30)).unwrap();
    let m2 = wl.derive_wallet_address(&addr(20), &addr(31)).unwrap();
    assert_ne!(m1.0, m2.0);
    assert_ne!(m1.0, addr(20));
    assert_ne!(m1.0, first.0);
}

#[test]
fn add_wallet_twice_fails_duplicate_member_count_up_one() {
    let (_, mut wl) = services();
    let cfg_id = addr(20);
    let controller = addr(11);
    let wallet = addr(30);
    wl.create_whitelist(&cfg_id, &controller).unwrap();
    wl.add_wallet(&cfg_id, &controller, &wallet).unwrap();
    assert_eq!(wl.config_record(&cfg_id).unwrap().counter, 1);
    let r = wl.add_wallet(&cfg_id, &controller, &wallet);
    assert_eq!(r, Err(CounterError::DuplicateMember));
    assert_eq!(wl.config_record(&cfg_id).unwrap().counter, 1);
}

#[test]
fn remove_wallet_without_add_fails_not_a_member_count_unchanged() {
    let (_, mut wl) = services();
    let cfg_id = addr(20);
    let controller = addr(11);
    wl.create_whitelist(&cfg_id, &controller).unwrap();
    let r = wl.remove_wallet(&cfg_id, &controller, &addr(30), &controller);
    assert_eq!(r, Err(CounterError::NotAMember));
    assert_eq!(wl.config_record(&cfg_id).unwrap().counter, 0);
}

#[test]
fn check_wallet_has_no_side_effects() {
    let (_, mut wl) = services();
    let cfg_id = addr(20);
    let controller = addr(11);
    let wallet = addr(30);
    wl.create_whitelist(&cfg_id, &controller).unwrap();
    wl.add_wallet(&cfg_id, &controller, &wallet).unwrap();
    for _ in 0..3 {
        assert!(wl.check_wallet(&cfg_id, &wallet).is_ok());
        assert_eq!(wl.check_wallet(&cfg_id, &addr(31)), Err(CounterError::NotAMember));
        assert_eq!(wl.config_record(&cfg_id).unwrap().counter, 1);
    }
}

#[test]
fn set_authority_requires_current_controller() {
    let (_, mut wl) = services();
    let cfg_id = addr(20);
    let controller = addr(11);
    wl.create_whitelist(&cfg_id, &controller).unwrap();
    let r = wl.set_authority(&cfg_id, &addr(12), &addr(13));
    assert_eq!(r, Err(CounterError::AuthorityMismatch));
    wl.set_authority(&cfg_id, &controller, &addr(13)).unwrap();
    assert_eq!(wl.config_record(&cfg_id).unwrap().authority, addr(13));
}

#[test]
fn create_whitelist_twice_fails_record_exists() {
    let (_, mut wl) = services();
    let cfg_id = addr(20);
    wl.create_whitelist(&cfg_id, &addr(11)).unwrap();
    let r = wl.create_whitelist(&cfg_id, &addr(12));
    assert_eq!(r, Err(CounterError::RecordExists));
}

#[test]
fn grant_and_update_require_the_owner() {
    let (mut cs, mut wl) = services();
    let owner = addr(10);
    let stranger = addr(12);
    let id = make_counter(&mut cs, &owner);
    cs.create_counter_whitelist(&mut wl, &id, &owner, &addr(20)).unwrap();
    let r = cs.grant_access(&mut wl, &id, &stranger, &addr(30));
    assert_eq!(r, Err(CounterError::AuthorityMismatch));
    let r = cs.update_counter(&wl, &id, &addr(30), &stranger);
    assert_eq!(r, Err(CounterError::AuthorityMismatch));
    let r = cs.create_counter_whitelist(&mut wl, &id, &stranger, &addr(21));
    assert_eq!(r, Err(CounterError::AuthorityMismatch));
}

#[test]
fn grant_and_retract_before_link_fail_not_initialized() {
    let (mut cs, mut wl) = services();
    let owner = addr(10);
    let id = make_counter(&mut cs, &owner);
    let r = cs.grant_access(&mut wl, &id, &owner, &addr(30));
    assert_eq!(r, Err(CounterError::NotInitialized));
    let r = cs.retract_access(&mut wl, &id, &owner, &addr(30), &owner);
    assert_eq!(r, Err(CounterError::NotInitialized));
}

#[test]
fn after_link_the_owner_cannot_edit_the_whitelist_directly() {
    let (mut cs, mut wl) = services();
    let owner = addr(10);
    let wl_acct = addr(20);
    let id = make_counter(&mut cs, &owner);
    cs.create_counter_whitelist(&mut wl, &id, &owner, &wl_acct).unwrap();
    // The controller capability now lives with the counter, not the owner:
    // direct mutation attempts by the owner are refused ...
    let r = wl.add_wallet(&wl_acct, &owner, &addr(30));
    assert_eq!(r, Err(CounterError::AuthorityMismatch));
    let r = wl.set_authority(&wl_acct, &owner, &owner);
    assert_eq!(r, Err(CounterError::AuthorityMismatch));
    // ... while the same edit forwarded through the counter succeeds.
    cs.grant_access(&mut wl, &id, &owner, &addr(30)).unwrap();
    assert!(wl.check_wallet(&wl_acct, &addr(30)).is_ok());
}

#[test]
fn end_to_end_grant_increment_retract() {
    let (mut cs, mut wl) = services();
    let owner = addr(10);
    let wl_acct = addr(20);
    let wallet_a = addr(30);
    let wallet_b = addr(31);

    let id = make_counter(&mut cs, &owner);
    assert_eq!(cs.counter_record(&id).unwrap().count, 0);

    cs.create_counter_whitelist(&mut wl, &id, &owner, &wl_acct).unwrap();
    assert_eq!(wl.config_record(&wl_acct).unwrap().authority, id);

    cs.grant_access(&mut wl, &id, &owner, &wallet_a).unwrap();
    assert!(wl.check_wallet(&wl_acct, &wallet_a).is_ok());
    assert_eq!(wl.config_record(&wl_acct).unwrap().counter, 1);

    cs.update_counter(&wl, &id, &wallet_a, &owner).unwrap();
    assert_eq!(cs.counter_record(&id).unwrap().count, 1);

    let r = cs.update_counter(&wl, &id, &wallet_b, &owner);
    assert_eq!(r, Err(CounterError::NotAMember));
    assert_eq!(cs.counter_record(&id).unwrap().count, 1);

    cs.retract_access(&mut wl, &id, &owner, &wallet_a, &owner).unwrap();
    assert_eq!(wl.check_wallet(&wl_acct, &wallet_a), Err(CounterError::NotAMember));
    assert_eq!(wl.config_record(&wl_acct).unwrap().counter, 0);

    let r = cs.update_counter(&wl, &id, &wallet_a, &owner);
    assert_eq!(r, Err(CounterError::NotAMember));
    assert_eq!(cs.counter_record(&id).unwrap().count, 1);
}

#[test]
fn unlink_keeps_whitelist_alive_but_blocks_increment() {
    let (mut cs, mut wl) = services();
    let owner = addr(10);
    let wl_acct = addr(20);
    let wallet_a = addr(30);

    let id = make_counter(&mut cs, &owner);
    cs.create_counter_whitelist(&mut wl, &id, &owner, &wl_acct).unwrap();
    cs.grant_access(&mut wl, &id, &owner, &wallet_a).unwrap();
    cs.update_counter(&wl, &id, &wallet_a, &owner).unwrap();

    cs.reset_whitelist(&id, &owner).unwrap();
    assert!(cs.counter_record(&id).unwrap().whitelist.is_none());

    let r = cs.update_counter(&wl, &id, &wallet_a, &owner);
    assert_eq!(r, Err(CounterError::NotInitialized));
    assert_eq!(cs.counter_record(&id).unwrap().count, 1);

    // The orphaned whitelist survives, still controlled by the counter's
    // capability, its membership intact.
    let cfg = wl.config_record(&wl_acct).unwrap();
    assert_eq!(cfg.authority, id);
    assert_eq!(cfg.counter, 1);
    assert!(wl.check_wallet(&wl_acct, &wallet_a).is_ok());
}

#[test]
fn unlink_before_link_fails_not_initialized() {
    let (mut cs, _) = services();
    let owner = addr(10);
    let id = make_counter(&mut cs, &owner);
    let r = cs.reset_whitelist(&id, &owner);
    assert_eq!(r, Err(CounterError::NotInitialized));
}

#[test]
fn relink_after_unlink_starts_a_fresh_whitelist() {
    let (mut cs, mut wl) = services();
    let owner = addr(10);
    let id = make_counter(&mut cs, &owner);
    cs.create_counter_whitelist(&mut wl, &id, &owner, &addr(20)).unwrap();
    cs.grant_access(&mut wl, &id, &owner, &addr(30)).unwrap();
    cs.reset_whitelist(&id, &owner).unwrap();
    cs.create_counter_whitelist(&mut wl, &id, &owner, &addr(21)).unwrap();
    assert_eq!(cs.counter_record(&id).unwrap().whitelist, Some(addr(21)));
    // The fresh list starts empty: the old grant does not carry over.
    let r = cs.update_counter(&wl, &id, &addr(30), &owner);
    assert_eq!(r, Err(CounterError::NotAMember));
}
