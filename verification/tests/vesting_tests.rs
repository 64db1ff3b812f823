use token_vesting::Error;
use token_vesting::TokenContract;
use token_vesting::VestingContract;

const ADMIN: u64 = 1;
const RECIPIENT: u64 = 2;
const STRANGER: u64 = 3;
const ENGINE: u64 = 100;
const TOKEN_ADDR: u64 = 7;

/// A token ledger with the admin funded, and an initialized engine
/// whose own identity already holds `funded` tokens.
fn setup(funded: i128) -> (TokenContract, VestingContract) {
    let mut t = TokenContract::new();
    let r = t.initialize(
        ADMIN,
        7,
        String::from("Vested Token"),
        String::from("VTK"),
        10_000,
        None,
    );
    assert_eq!(r, Ok(()));
    if funded > 0 {
        assert_eq!(t.transfer(ADMIN, ADMIN, ENGINE, funded), Ok(()));
    }
    let mut v = VestingContract::new(ENGINE);
    assert_eq!(v.initialize(ADMIN, TOKEN_ADDR), Ok(()));
    (t, v)
}

#[test]
fn engine_initialize_twice_fails() {
    let (_t, mut v) = setup(0);
    assert_eq!(v.initialize(STRANGER, 9), Err(Error::AlreadyInitialized));
}

#[test]
fn create_schedule_requires_admin() {
    let (t, mut v) = setup(1_000);
    let r = v.create_schedule(&t, STRANGER, RECIPIENT, 1_000, 100, 200);
    assert_eq!(r, Err(Error::Unauthorized));
}

#[test]
fn create_schedule_rejects_a_second_schedule() {
    let (t, mut v) = setup(2_000);
    assert_eq!(v.create_schedule(&t, ADMIN, RECIPIENT, 1_000, 100, 200), Ok(()));
    let r = v.create_schedule(&t, ADMIN, RECIPIENT, 500, 0, 10);
    assert_eq!(r, Err(Error::ScheduleExists));
}

#[test]
fn create_schedule_rejects_non_positive_amounts() {
    let (t, mut v) = setup(1_000);
    assert_eq!(v.create_schedule(&t, ADMIN, RECIPIENT, 0, 100, 200), Err(Error::InvalidAmount));
    assert_eq!(v.create_schedule(&t, ADMIN, RECIPIENT, -3, 100, 200), Err(Error::InvalidAmount));
}

#[test]
fn create_schedule_rejects_end_before_cliff() {
    let (t, mut v) = setup(1_000);
    let r = v.create_schedule(&t, ADMIN, RECIPIENT, 1_000, 200, 199);
    assert_eq!(r, Err(Error::InvalidSchedule));
}

#[test]
fn create_schedule_requires_the_engine_to_be_funded() {
    let (t, mut v) = setup(999);
    let r = v.create_schedule(&t, ADMIN, RECIPIENT, 1_000, 100, 200);
    assert_eq!(r, Err(Error::InsufficientBalance));
}

#[test]
fn vested_amount_follows_the_cliff_and_the_line() {
    let (t, mut v) = setup(1_000);
    assert_eq!(v.create_schedule(&t, ADMIN, RECIPIENT, 1_000, 100, 200), Ok(()));
    assert_eq!(v.vested_amount(RECIPIENT, 0), 0);
    assert_eq!(v.vested_amount(RECIPIENT, 99), 0);
    assert_eq!(v.vested_amount(RECIPIENT, 100), 0);
    assert_eq!(v.vested_amount(RECIPIENT, 101), 10);
    assert_eq!(v.vested_amount(RECIPIENT, 150), 500);
    assert_eq!(v.vested_amount(RECIPIENT, 199), 990);
    assert_eq!(v.vested_amount(RECIPIENT, 200), 1_000);
    assert_eq!(v.vested_amount(RECIPIENT, 5_000), 1_000);
}

#[test]
fn vested_amount_floors_the_quotient() {
    let (t, mut v) = setup(1_000);
    assert_eq!(v.create_schedule(&t, ADMIN, RECIPIENT, 1_000, 0, 3), Ok(()));
    assert_eq!(v.vested_amount(RECIPIENT, 1), 333);
    assert_eq!(v.vested_amount(RECIPIENT, 2), 666);
    assert_eq!(v.vested_amount(RECIPIENT, 3), 1_000);
}

#[test]
fn vested_amount_handles_huge_totals_exactly() {
    let big: i128 = i128::MAX - 9;
    let mut t = TokenContract::new();
    assert_eq!(
        t.initialize(ADMIN, 0, String::from("T"), String::from("T"), big, None),
        Ok(())
    );
    assert_eq!(t.transfer(ADMIN, ADMIN, ENGINE, big), Ok(()));
    let mut v = VestingContract::new(ENGINE);
    assert_eq!(v.initialize(ADMIN, TOKEN_ADDR), Ok(()));
    assert_eq!(v.create_schedule(&t, ADMIN, RECIPIENT, big, 0, 4_000_000_000), Ok(()));
    assert_eq!(v.vested_amount(RECIPIENT, 2_000_000_000), big / 2);
    assert_eq!(v.vested_amount(RECIPIENT, 4_000_000_000), big);
}

#[test]
fn vested_amount_without_a_schedule_is_zero() {
    let (_t, v) = setup(0);
    assert_eq!(v.vested_amount(STRANGER, 150), 0);
    assert_eq!(v.released_amount(STRANGER), 0);
}

#[test]
fn an_instant_schedule_vests_whole_at_its_single_ledger() {
    let (t, mut v) = setup(10);
    assert_eq!(v.create_schedule(&t, ADMIN, RECIPIENT, 10, 50, 50), Ok(()));
    assert_eq!(v.vested_amount(RECIPIENT, 49), 0);
    assert_eq!(v.vested_amount(RECIPIENT, 50), 10);
}

#[test]
fn release_pays_the_vested_part_once() {
    let (mut t, mut v) = setup(1_000);
    assert_eq!(v.create_schedule(&t, ADMIN, RECIPIENT, 1_000, 100, 200), Ok(()));
    assert_eq!(v.vested_amount(RECIPIENT, 150), 500);
    assert_eq!(v.release(&mut t, RECIPIENT, 150), Ok(()));
    assert_eq!(t.balance(RECIPIENT), 500);
    assert_eq!(t.balance(ENGINE), 500);
    assert_eq!(v.released_amount(RECIPIENT), 500);
    assert_eq!(v.payable_amount(RECIPIENT, 150), 0);
    assert_eq!(v.release(&mut t, RECIPIENT, 150), Ok(()));
    assert_eq!(t.balance(RECIPIENT), 500);
    assert_eq!(v.released_amount(RECIPIENT), 500);
}

#[test]
fn release_before_the_cliff_is_a_no_op() {
    let (mut t, mut v) = setup(1_000);
    assert_eq!(v.create_schedule(&t, ADMIN, RECIPIENT, 1_000, 100, 200), Ok(()));
    assert_eq!(v.release(&mut t, RECIPIENT, 99), Ok(()));
    assert_eq!(t.balance(RECIPIENT), 0);
    assert_eq!(v.released_amount(RECIPIENT), 0);
}

#[test]
fn release_without_a_schedule_fails() {
    let (mut t, mut v) = setup(0);
    assert_eq!(v.release(&mut t, RECIPIENT, 150), Err(Error::NoSchedule));
}

#[test]
fn release_can_be_triggered_by_anyone_for_the_recipient() {
    let (mut t, mut v) = setup(1_000);
    assert_eq!(v.create_schedule(&t, ADMIN, RECIPIENT, 1_000, 0, 10), Ok(()));
    assert_eq!(v.release(&mut t, RECIPIENT, 10), Ok(()));
    assert_eq!(t.balance(RECIPIENT), 1_000);
    assert_eq!(v.released_amount(RECIPIENT), 1_000);
}

#[test]
fn released_amount_never_exceeds_vested_amount() {
    let (mut t, mut v) = setup(1_000);
    assert_eq!(v.create_schedule(&t, ADMIN, RECIPIENT, 1_000, 100, 200), Ok(()));
    let mut now: u32 = 100;
    while now <= 210 {
        assert_eq!(v.release(&mut t, RECIPIENT, now), Ok(()));
        assert!(v.released_amount(RECIPIENT) <= v.vested_amount(RECIPIENT, now));
        now += 30;
    }
    assert_eq!(t.balance(RECIPIENT), 900);
    assert_eq!(v.release(&mut t, RECIPIENT, 200), Ok(()));
    assert_eq!(t.balance(RECIPIENT), 1_000);
    assert_eq!(v.released_amount(RECIPIENT), 1_000);
}

#[test]
fn revoke_after_release_returns_the_remainder_to_the_admin() {
    let (mut t, mut v) = setup(1_000);
    assert_eq!(v.create_schedule(&t, ADMIN, RECIPIENT, 1_000, 100, 200), Ok(()));
    assert_eq!(v.release(&mut t, RECIPIENT, 150), Ok(()));
    let admin_before = t.balance(ADMIN);
    assert_eq!(v.revoke(&mut t, ADMIN, RECIPIENT, 150), Ok(()));
    assert_eq!(t.balance(RECIPIENT), 500);
    assert_eq!(t.balance(ADMIN), admin_before + 500);
    assert_eq!(t.balance(ENGINE), 0);
    assert_eq!(v.released_amount(RECIPIENT), 500);
    assert_eq!(v.revoke(&mut t, ADMIN, RECIPIENT, 150), Err(Error::AlreadyRevoked));
}

#[test]
fn revoke_splits_payable_and_remainder() {
    let (mut t, mut v) = setup(1_000);
    assert_eq!(v.create_schedule(&t, ADMIN, RECIPIENT, 1_000, 100, 200), Ok(()));
    let admin_before = t.balance(ADMIN);
    assert_eq!(v.revoke(&mut t, ADMIN, RECIPIENT, 150), Ok(()));
    assert_eq!(t.balance(RECIPIENT), 500);
    assert_eq!(t.balance(ADMIN), admin_before + 500);
    assert_eq!(t.balance(ENGINE), 0);
}

#[test]
fn revoke_freezes_vesting() {
    let (mut t, mut v) = setup(1_000);
    assert_eq!(v.create_schedule(&t, ADMIN, RECIPIENT, 1_000, 100, 200), Ok(()));
    assert_eq!(v.revoke(&mut t, ADMIN, RECIPIENT, 150), Ok(()));
    assert_eq!(v.vested_amount(RECIPIENT, 150), 500);
    assert_eq!(v.vested_amount(RECIPIENT, 200), 500);
    assert_eq!(v.vested_amount(RECIPIENT, 4_000_000_000), 500);
    assert_eq!(v.release(&mut t, RECIPIENT, 200), Ok(()));
    assert_eq!(t.balance(RECIPIENT), 500);
}

#[test]
fn revoke_requires_admin_and_a_schedule() {
    let (mut t, mut v) = setup(1_000);
    assert_eq!(v.revoke(&mut t, ADMIN, RECIPIENT, 150), Err(Error::NoSchedule));
    assert_eq!(v.create_schedule(&t, ADMIN, RECIPIENT, 1_000, 100, 200), Ok(()));
    assert_eq!(v.revoke(&mut t, STRANGER, RECIPIENT, 150), Err(Error::Unauthorized));
    assert_eq!(t.balance(RECIPIENT), 0);
}

#[test]
fn payable_amount_tracks_the_unreleased_vested_part() {
    let (mut t, mut v) = setup(1_000);
    assert_eq!(v.create_schedule(&t, ADMIN, RECIPIENT, 1_000, 100, 200), Ok(()));
    assert_eq!(v.payable_amount(RECIPIENT, 99), 0);
    assert_eq!(v.payable_amount(RECIPIENT, 150), 500);
    assert_eq!(v.release(&mut t, RECIPIENT, 150), Ok(()));
    assert_eq!(v.payable_amount(RECIPIENT, 150), 0);
    assert_eq!(v.payable_amount(RECIPIENT, 175), 250);
    assert_eq!(v.payable_amount(STRANGER, 175), 0);
}

#[test]
fn two_schedules_vest_independently() {
    let (mut t, mut v) = setup(3_000);
    assert_eq!(v.create_schedule(&t, ADMIN, RECIPIENT, 1_000, 100, 200), Ok(()));
    assert_eq!(v.create_schedule(&t, ADMIN, STRANGER, 2_000, 0, 100), Ok(()));
    assert_eq!(v.vested_amount(RECIPIENT, 50), 0);
    assert_eq!(v.vested_amount(STRANGER, 50), 1_000);
    assert_eq!(v.release(&mut t, STRANGER, 50), Ok(()));
    assert_eq!(t.balance(STRANGER), 1_000);
    assert_eq!(t.balance(RECIPIENT), 0);
    assert_eq!(v.released_amount(RECIPIENT), 0);
    assert_eq!(v.released_amount(STRANGER), 1_000);
}
