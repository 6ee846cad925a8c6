use waystart::EntryFrequency;
use waystart::Frequencies;

const HOUR: u64 = 3600;
const DAY: u64 = 24 * 3600;
const WEEK: u64 = 7 * 24 * 3600;

#[test]
fn fresh_record_starts_at_one() {
    let r = EntryFrequency::new(1000);
    assert_eq!(r.score, 1);
    assert_eq!(r.last_used, 1000);
}

#[test]
fn decay_buckets_have_exact_multipliers() {
    let base: u64 = 1_000_000;
    let r = EntryFrequency { score: 3, last_used: base };
    assert_eq!(r.score(base), 12);
    assert_eq!(r.score(base + HOUR - 1), 12);
    assert_eq!(r.score(base + HOUR), 6);
    assert_eq!(r.score(base + DAY - 1), 6);
    assert_eq!(r.score(base + DAY), 1);
    assert_eq!(r.score(base + WEEK - 1), 1);
    assert_eq!(r.score(base + WEEK), 0);
}

#[test]
fn future_last_used_scores_zero() {
    let r = EntryFrequency { score: 9, last_used: 5000 };
    assert_eq!(r.score(4000), 0);
}

#[test]
fn increment_bumps_counter_and_refreshes_time() {
    let mut r = EntryFrequency::new(100);
    r.increment(250);
    assert_eq!(r.score, 2);
    assert_eq!(r.last_used, 250);
}

#[test]
fn store_creates_then_bumps_records() {
    let mut f = Frequencies::new();
    assert_eq!(f.effective_of("browser", 500), 0);
    f.increment("browser", 500);
    assert_eq!(f.effective_of("browser", 500), 4);
    f.increment("browser", 600);
    assert_eq!(f.effective_of("browser", 600), 8);
    assert_eq!(f.effective_of("editor", 600), 0);
}

#[test]
fn second_execution_within_hour_raises_effective_score() {
    let mut once = Frequencies::new();
    once.increment("app", 1000);
    let mut twice = Frequencies::new();
    twice.increment("app", 1000);
    twice.increment("app", 1500);
    let now = 2000;
    assert!(twice.effective_of("app", now) > once.effective_of("app", now));
}

#[test]
fn loaded_records_keep_first_of_duplicate_ids() {
    let loaded = vec![
        ("a".to_string(), EntryFrequency { score: 5, last_used: 10 }),
        ("b".to_string(), EntryFrequency { score: 2, last_used: 20 }),
        ("a".to_string(), EntryFrequency { score: 9, last_used: 30 }),
    ];
    let f = Frequencies::from_records(loaded);
    assert_eq!(f.records().len(), 2);
    assert_eq!(f.effective_of("a", 10), 20);
}

#[test]
fn a_backwards_clock_never_moves_last_used_back() {
    let mut r = EntryFrequency::new(1000);
    r.increment(400);
    assert_eq!(r.score, 2);
    assert_eq!(r.last_used, 1000);
    r.increment(1500);
    assert_eq!(r.last_used, 1500);
}
