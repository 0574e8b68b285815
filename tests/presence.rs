use mc_snitch::presence::{PlayerPresenceLog, SWEEP_THRESHOLD};

#[test]
fn is_past_is_inclusive() {
    assert!(PlayerPresenceLog::is_past(10, 10));
    assert!(PlayerPresenceLog::is_past(10, 11));
    assert!(!PlayerPresenceLog::is_past(10, 9));
}

#[test]
fn cooldown_suppresses_then_expires() {
    let mut log = PlayerPresenceLog::new();
    assert!(log.new_player("Bob".to_string(), 1000, 600));
    assert!(!log.new_player("Bob".to_string(), 1599, 600));
    assert!(!log.is_record_expired("Bob", 1599));
    assert!(log.is_record_expired("Bob", 1600));
    assert!(log.new_player("Bob".to_string(), 1600, 600));
    assert!(!log.new_player("Bob".to_string(), 1601, 600));
}

#[test]
fn names_are_case_sensitive() {
    let mut log = PlayerPresenceLog::new();
    assert!(log.new_player("bob".to_string(), 0, 600));
    assert!(log.new_player("Bob".to_string(), 1, 600));
    assert!(log.is_record_expired("BOB", 2));
    assert_eq!(log.len(), 2);
}

#[test]
fn suppressed_join_keeps_record() {
    let mut log = PlayerPresenceLog::new();
    assert!(log.new_player("Bob".to_string(), 100, 50));
    assert!(!log.new_player("Bob".to_string(), 120, 50));
    // still expires at 150, not 170
    assert!(log.is_record_expired("Bob", 150));
}

#[test]
fn expiry_saturates_at_end_of_clock() {
    let mut log = PlayerPresenceLog::new();
    assert!(log.new_player("Bob".to_string(), u64::MAX - 1, 600));
    assert!(!log.is_record_expired("Bob", u64::MAX - 1));
    assert!(log.is_record_expired("Bob", u64::MAX));
}

#[test]
fn cleanup_removes_exactly_the_dead() {
    let mut log = PlayerPresenceLog::new();
    assert!(log.new_player("a".to_string(), 0, 10));
    assert!(log.new_player("b".to_string(), 0, 20));
    assert!(log.new_player("c".to_string(), 0, 30));
    log.cleanup(20);
    assert_eq!(log.len(), 1);
    assert!(log.is_record_expired("a", 0));
    assert!(log.is_record_expired("b", 0));
    assert!(!log.is_record_expired("c", 0));
}

#[test]
fn sweep_at_threshold_keeps_live_records() {
    assert_eq!(SWEEP_THRESHOLD, 50);
    let mut log = PlayerPresenceLog::new();
    for i in 0..60u64 {
        assert!(log.new_player(format!("player{i}"), i, 600));
    }
    assert_eq!(log.len(), 60);
}

#[test]
fn sweep_at_threshold_drops_dead_records() {
    let mut log = PlayerPresenceLog::new();
    // 49 announcements that expire at 10 .. 58
    for i in 0..49u64 {
        assert!(log.new_player(format!("early{i}"), i, 10));
    }
    assert_eq!(log.len(), 49);
    // the 50th announcement sweeps at time 30: records expiring after 30 stay
    assert!(log.new_player("late".to_string(), 30, 600));
    // early0 .. early20 expire at 10 .. 30 and are gone: 28 stay, plus "late"
    assert_eq!(log.len(), 29);
    assert!(!log.is_record_expired("early21", 30));
}

#[test]
fn new_player_now_announces_fresh_name() {
    let mut log = PlayerPresenceLog::new();
    assert!(log.new_player_now("Bob".to_string(), 600));
    assert!(!log.new_player_now("Bob".to_string(), 600));
}
