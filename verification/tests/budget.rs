use evm_assets::budget::{
    allowance, deadline, grant, Budget, INIT, LOCAL, MARGIN, MILLI, MIN, PROBE, READ, RPC, STARTUP,
    TRANSFER,
};

const SECOND: u128 = 1_000_000_000;

#[test]
fn deadline_leaves_room_for_the_reply() {
    assert!(deadline(RPC).unwrap() < (RPC / MILLI) as i64);
}

#[test]
fn a_budget_never_grants_more_than_its_total() {
    assert!(Budget::new(READ).take(99 * SECOND).unwrap() <= READ);
}

#[test]
fn startup_is_bounded_across_both_dependencies() {
    let budget = Budget::new(STARTUP);
    assert_eq!(budget.take(PROBE), Some(PROBE));
    assert!(budget.take(INIT).unwrap() <= INIT);
}

#[test]
fn bounds_are_those_that_are_promised() {
    assert_eq!(RPC, 12 * SECOND);
    assert_eq!(READ, 14 * SECOND);
    assert_eq!((LOCAL, INIT, STARTUP), (3 * SECOND, 3 * SECOND, 6 * SECOND));
    assert_eq!((PROBE, TRANSFER), (1_500 * MILLI, 4_500 * MILLI));
    assert_eq!((MIN, MARGIN), (50 * MILLI, 300 * MILLI));
}

#[test]
fn grants_are_what_is_left_and_no_more_than_the_cap() {
    assert_eq!(grant(READ, 0, RPC), Some(RPC));
    assert_eq!(grant(READ, 5 * SECOND, RPC), Some(9 * SECOND));
    assert_eq!(grant(READ, READ - MIN, RPC), Some(MIN));
    assert_eq!(grant(READ, READ - MIN + 1, RPC), None);
    assert_eq!(grant(READ, READ + 1, RPC), None);
    assert_eq!(grant(READ, 0, MIN - 1), None);
}

#[test]
fn deadlines_are_whole_milliseconds_short_of_the_margin() {
    assert_eq!(deadline(RPC), Some(11_700));
    assert_eq!(deadline(MARGIN + MIN), Some(50));
    assert_eq!(deadline(MARGIN + MIN - 1), None);
    assert_eq!(deadline(MARGIN + MIN + MILLI - 1), Some(50));
    assert_eq!(deadline(0), None);
}

#[test]
fn a_caller_deadline_only_shortens_a_transfer() {
    assert_eq!(allowance(None), TRANSFER);
    assert_eq!(allowance(Some(-1)), TRANSFER);
    assert_eq!(allowance(Some(0)), 0);
    assert_eq!(allowance(Some(1_000)), SECOND);
    assert_eq!(allowance(Some(4_500)), TRANSFER);
    assert_eq!(allowance(Some(i64::MAX)), TRANSFER);
}

#[test]
fn a_spent_budget_grants_nothing() {
    assert_eq!(Budget::new(0).take(RPC), None);
    assert_eq!(Budget::new(MIN - 1).take(RPC), None);
}

#[test]
fn what_has_passed_is_not_granted_again() {
    let budget = Budget::new(READ);
    let mut last = READ;
    for _ in 0..10_000_000 {
        last = budget.take(READ).unwrap();
        if last < READ {
            break;
        }
    }
    assert!(last < READ);
    assert!(budget.take(READ).unwrap() <= last);
}
