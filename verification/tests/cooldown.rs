use moneybot::library::cmdutil::{cooldown_message, Data};

const SEC: u64 = 1_000_000_000;

#[test]
fn first_use_is_allowed_and_repeat_blocked() {
    let mut data = Data::new();
    assert!(data.check_dr(1, "work".to_string(), 10 * SEC, 3 * SEC));
    assert!(!data.check_dr(1, "work".to_string(), 11 * SEC, 3 * SEC));
    assert!(!data.check_dr(1, "work".to_string(), 13 * SEC - 1, 3 * SEC));
    assert!(data.check_dr(1, "work".to_string(), 13 * SEC, 3 * SEC));
}

#[test]
fn refused_use_does_not_restart_the_cooldown() {
    let mut data = Data::new();
    assert!(data.check_dr(1, "gamble".to_string(), 0, 20 * SEC));
    assert!(!data.check_dr(1, "gamble".to_string(), 19 * SEC, 20 * SEC));
    assert!(data.check_dr(1, "gamble".to_string(), 20 * SEC, 20 * SEC));
}

#[test]
fn users_and_commands_are_independent() {
    let mut data = Data::new();
    assert!(data.check_dr(1, "work".to_string(), 100, 3 * SEC));
    assert!(data.check_dr(2, "work".to_string(), 101, 3 * SEC));
    assert!(data.check_dr(1, "gamble".to_string(), 102, 20 * SEC));
    assert!(!data.check_dr(1, "work".to_string(), 103, 3 * SEC));
}

#[test]
fn clock_going_back_counts_as_no_time() {
    let mut data = Data::new();
    assert!(data.check_dr(1, "work".to_string(), 50 * SEC, 3 * SEC));
    assert!(!data.check_dr(1, "work".to_string(), 10 * SEC, 3 * SEC));
}

#[test]
fn zero_cooldown_never_blocks() {
    let mut data = Data::new();
    assert!(data.check_dr(1, "work".to_string(), 5, 0));
    assert!(data.check_dr(1, "work".to_string(), 5, 0));
}

#[test]
fn cooldown_text() {
    assert_eq!(
        cooldown_message(3),
        "⏳ Please wait 3 seconds before using this command again"
    );
}
