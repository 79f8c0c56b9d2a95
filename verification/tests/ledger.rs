use voting_token::account::AccountId;
use voting_token::amount::U256;
use voting_token::ledger::VotingToken;

fn acct(n: u64) -> AccountId {
    AccountId { id: n }
}

fn amt(n: u64) -> U256 {
    U256::from_u64(n)
}

fn fresh(supply: u64, caller: AccountId) -> VotingToken {
    VotingToken::new(String::from("Vote"), String::from("VOTE"), amt(supply), caller)
}

#[test]
fn untouched_accounts_hold_zero() {
    let alice = acct(1);
    let ledger = fresh(1000, alice);
    assert_eq!(ledger.get_balance(acct(2)), amt(0));
    assert_eq!(ledger.get_balance(acct(77)), amt(0));
    assert_eq!(ledger.get_allowance(acct(2), acct(3)), amt(0));
    assert_eq!(ledger.get_deposit(acct(2)), amt(0));
}

#[test]
fn construction_credits_the_caller() {
    let alice = acct(1);
    let ledger = fresh(1000, alice);
    assert_eq!(ledger.get_total_supply(), amt(1000));
    assert_eq!(ledger.get_balance(alice), amt(1000));
    assert_eq!(ledger.get_deposit(alice), amt(0));
    assert_eq!(ledger.get_name(), String::from("Vote"));
    assert_eq!(ledger.get_symbol(), String::from("VOTE"));
}

#[test]
fn transfer_moves_exactly_the_value() {
    let alice = acct(1);
    let bob = acct(2);
    let mut ledger = fresh(1000, alice);
    assert!(ledger.transfer(alice, bob, amt(250)));
    assert_eq!(ledger.get_balance(alice), amt(750));
    assert_eq!(ledger.get_balance(bob), amt(250));
    assert_eq!(ledger.get_total_supply(), amt(1000));
}

#[test]
fn transfer_beyond_balance_changes_nothing() {
    let alice = acct(1);
    let bob = acct(2);
    let mut ledger = fresh(1000, alice);
    assert!(!ledger.transfer(alice, bob, amt(1001)));
    assert_eq!(ledger.get_balance(alice), amt(1000));
    assert_eq!(ledger.get_balance(bob), amt(0));
    assert!(!ledger.transfer(bob, alice, amt(1)));
    assert_eq!(ledger.get_balance(alice), amt(1000));
    assert_eq!(ledger.get_balance(bob), amt(0));
}

#[test]
fn self_transfer_nets_to_no_change() {
    let alice = acct(1);
    let mut ledger = fresh(1000, alice);
    assert!(ledger.transfer(alice, alice, amt(600)));
    assert_eq!(ledger.get_balance(alice), amt(1000));
    assert!(!ledger.transfer(alice, alice, amt(1001)));
    assert_eq!(ledger.get_balance(alice), amt(1000));
}

#[test]
fn transfer_of_zero_succeeds() {
    let alice = acct(1);
    let bob = acct(2);
    let mut ledger = fresh(0, alice);
    assert!(ledger.transfer(alice, bob, amt(0)));
    assert_eq!(ledger.get_balance(alice), amt(0));
    assert_eq!(ledger.get_balance(bob), amt(0));
}

#[test]
fn approve_overwrites_previous_allowance() {
    let alice = acct(1);
    let bob = acct(2);
    let mut ledger = fresh(1000, alice);
    assert!(ledger.approve(alice, bob, amt(300)));
    assert_eq!(ledger.get_allowance(alice, bob), amt(300));
    assert!(ledger.approve(alice, bob, amt(40)));
    assert_eq!(ledger.get_allowance(alice, bob), amt(40));
    assert_eq!(ledger.get_allowance(bob, alice), amt(0));
    assert_eq!(ledger.get_balance(alice), amt(1000));
}

#[test]
fn transfer_from_within_allowance_and_balance() {
    let alice = acct(1);
    let bob = acct(2);
    let carol = acct(3);
    let mut ledger = fresh(1000, alice);
    assert!(ledger.approve(alice, bob, amt(300)));
    assert!(ledger.transfer_from(bob, alice, carol, amt(200)));
    assert_eq!(ledger.get_balance(alice), amt(800));
    assert_eq!(ledger.get_balance(carol), amt(200));
    assert_eq!(ledger.get_allowance(alice, bob), amt(100));
}

#[test]
fn transfer_from_beyond_allowance_changes_nothing() {
    let alice = acct(1);
    let bob = acct(2);
    let carol = acct(3);
    let mut ledger = fresh(1000, alice);
    assert!(ledger.approve(alice, bob, amt(100)));
    assert!(!ledger.transfer_from(bob, alice, carol, amt(150)));
    assert_eq!(ledger.get_balance(alice), amt(1000));
    assert_eq!(ledger.get_balance(carol), amt(0));
    assert_eq!(ledger.get_allowance(alice, bob), amt(100));
}

#[test]
fn failed_balance_check_still_consumes_allowance() {
    // The allowance is debited before the balance check; a transfer that then
    // fails for want of balance leaves the allowance reduced.
    let alice = acct(1);
    let bob = acct(2);
    let carol = acct(3);
    let mut ledger = fresh(100, alice);
    assert!(ledger.approve(alice, bob, amt(300)));
    assert!(!ledger.transfer_from(bob, alice, carol, amt(200)));
    assert_eq!(ledger.get_balance(alice), amt(100));
    assert_eq!(ledger.get_balance(carol), amt(0));
    assert_eq!(ledger.get_allowance(alice, bob), amt(100));
}

#[test]
fn deposit_mints_at_the_exchange_rate() {
    // 10^17 deposited units, times 1000, divided by 10^18: 100 tokens.
    let alice = acct(1);
    let bob = acct(2);
    let mut ledger = fresh(1000, alice);
    assert!(ledger.deposit(bob, amt(100_000_000_000_000_000)));
    assert_eq!(ledger.get_deposit(bob), amt(100_000_000_000_000_000));
    assert_eq!(ledger.get_balance(bob), amt(100));
    assert_eq!(ledger.get_total_supply(), amt(1100));
    assert_eq!(ledger.get_balance(alice), amt(1000));
}

#[test]
fn deposit_truncates_below_the_rate() {
    // 10^15 * 1000 / 10^18 is exactly 1; one unit less truncates to 0.
    let alice = acct(1);
    let bob = acct(2);
    let mut ledger = fresh(0, alice);
    assert!(ledger.deposit(bob, amt(999_999_999_999_999)));
    assert_eq!(ledger.get_balance(bob), amt(0));
    assert_eq!(ledger.get_total_supply(), amt(0));
    assert!(ledger.deposit(bob, amt(1_000_000_000_000_000)));
    assert_eq!(ledger.get_balance(bob), amt(1));
    assert_eq!(ledger.get_total_supply(), amt(1));
}

#[test]
fn second_deposit_replaces_balance_and_record() {
    let alice = acct(1);
    let mut ledger = fresh(1000, alice);
    assert!(ledger.deposit(alice, amt(100_000_000_000_000_000)));
    assert_eq!(ledger.get_balance(alice), amt(100));
    assert_eq!(ledger.get_total_supply(), amt(1100));
    assert!(ledger.deposit(alice, amt(200_000_000_000_000_000)));
    assert_eq!(ledger.get_deposit(alice), amt(200_000_000_000_000_000));
    assert_eq!(ledger.get_balance(alice), amt(200));
    assert_eq!(ledger.get_total_supply(), amt(1300));
}

#[test]
fn deposit_rejects_a_scaled_overflow() {
    let alice = acct(1);
    let mut ledger = fresh(1000, alice);
    assert!(!ledger.deposit(alice, U256::max_value()));
    assert_eq!(ledger.get_deposit(alice), amt(0));
    assert_eq!(ledger.get_balance(alice), amt(1000));
    assert_eq!(ledger.get_total_supply(), amt(1000));
}

#[test]
fn deposit_rejects_a_supply_overflow() {
    let alice = acct(1);
    let mut ledger = VotingToken::new(
        String::from("Vote"),
        String::from("VOTE"),
        U256::max_value(),
        alice,
    );
    assert!(!ledger.deposit(alice, amt(1_000_000_000_000_000_000)));
    assert_eq!(ledger.get_deposit(alice), amt(0));
    assert_eq!(ledger.get_total_supply(), U256::max_value());
}

#[test]
fn delegated_transfer_scenario() {
    let alice = acct(1);
    let bob = acct(2);
    let carol = acct(3);
    let mut ledger = fresh(1000, alice);
    assert_eq!(ledger.get_balance(alice), amt(1000));
    assert_eq!(ledger.get_total_supply(), amt(1000));
    assert!(ledger.approve(alice, bob, amt(300)));
    assert!(ledger.transfer_from(bob, alice, carol, amt(200)));
    assert_eq!(ledger.get_balance(alice), amt(800));
    assert_eq!(ledger.get_balance(carol), amt(200));
    assert_eq!(ledger.get_allowance(alice, bob), amt(100));
    assert!(!ledger.transfer_from(bob, alice, carol, amt(150)));
    assert_eq!(ledger.get_balance(alice), amt(800));
    assert_eq!(ledger.get_balance(carol), amt(200));
    assert_eq!(ledger.get_allowance(alice, bob), amt(100));
}

#[test]
fn empty_metadata_is_kept() {
    let alice = acct(1);
    let ledger = VotingToken::new(String::new(), String::new(), amt(0), alice);
    assert_eq!(ledger.get_name(), String::new());
    assert_eq!(ledger.get_symbol(), String::new());
    assert_eq!(ledger.get_total_supply(), amt(0));
}
