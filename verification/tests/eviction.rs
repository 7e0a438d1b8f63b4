//! The memory of completed tasks.

use snerd::queue::{evict_expired_completed, COMPLETED_SWEEP_INTERVAL, COMPLETED_TTL};
use snerd::table::StringTable;

const SECOND: u64 = 1_000_000_000;

#[test]
fn evicts_entries_older_than_ttl() {
    let now: u64 = 1_000 * SECOND;
    let mut completed: StringTable<u64> = StringTable::new();
    completed.insert("stale".to_string(), now - 90 * SECOND);
    completed.insert("fresh".to_string(), now - 10 * SECOND);

    evict_expired_completed(&mut completed, now, COMPLETED_TTL);

    assert!(!completed.contains_key("stale"));
    assert!(completed.contains_key("fresh"));
    assert_eq!(completed.len(), 1);
}

#[test]
fn keeps_entries_exactly_within_ttl() {
    let now: u64 = 1_000 * SECOND;
    let mut completed: StringTable<u64> = StringTable::new();
    completed.insert("edge".to_string(), now - (COMPLETED_TTL - SECOND));

    evict_expired_completed(&mut completed, now, COMPLETED_TTL);

    assert!(completed.contains_key("edge"));
}

#[test]
fn empty_map_is_noop() {
    let mut completed: StringTable<u64> = StringTable::new();
    evict_expired_completed(&mut completed, 1_000 * SECOND, COMPLETED_TTL);
    assert!(completed.len() == 0);
}

#[test]
fn an_entry_as_old_as_the_ttl_stays_and_an_older_one_goes() {
    let mut completed: StringTable<u64> = StringTable::new();
    completed.insert("edge".to_string(), 1);
    completed.insert("older".to_string(), 0);
    completed.insert("later".to_string(), COMPLETED_TTL + 5);
    evict_expired_completed(&mut completed, COMPLETED_TTL + 1, COMPLETED_TTL);
    assert!(completed.contains_key("edge"));
    assert!(!completed.contains_key("older"));
    assert_eq!(completed.get("later"), Some(&(COMPLETED_TTL + 5)));
    assert_eq!(COMPLETED_TTL, 60 * SECOND);
    assert_eq!(COMPLETED_SWEEP_INTERVAL, 30 * SECOND);
}
