use leaderboard::error::AppError;
use leaderboard::gate::{Gate, ScorePost, Verdict};
use leaderboard::record::{Record, Timestamp};
use leaderboard::score::Score;
use leaderboard::store::Store;

fn score(value: f64) -> Score {
    Score::from_bits(value.to_bits()).expect("a finite number")
}

fn post(team: &str, value: f64, secs: i64, secret: &str) -> ScorePost {
    ScorePost {
        team: team.to_string(),
        score: score(value),
        time: Timestamp { secs, nanos: 0 },
        secret: secret.to_string(),
    }
}

fn record(value: f64, secs: i64) -> Record {
    Record { score: score(value), time: Timestamp { secs, nanos: 0 } }
}

fn team(name: &str) -> String {
    name.to_string()
}

fn keeper() -> Gate {
    Gate::new("s3cret".to_string())
}

#[test]
fn a_wrong_secret_is_unauthorized() {
    let gate = keeper();
    let mut store = Store::new();
    let outcome = gate.submit(&mut store, &post("A", 1.0, 1, "guess"));
    assert_eq!(outcome, Err(AppError::Unauthorized("invalid secret".to_string())));
    assert_eq!(store.get(&team("A")), None);
    assert!(store.history().entries().is_empty());
    assert_eq!(gate.submit(&mut store, &post("A", 1.0, 1, "")).is_err(), true);
    assert_eq!(gate.check(&store, &post("A", 1.0, 1, "S3cret")), Verdict::Unauthorized);
}

#[test]
fn the_secret_is_checked_before_the_score() {
    let gate = keeper();
    let mut store = Store::new();
    assert_eq!(gate.submit(&mut store, &post("A", 5.0, 1, "s3cret")), Ok(()));
    let outcome = gate.submit(&mut store, &post("A", 1.0, 2, "wrong"));
    assert_eq!(outcome, Err(AppError::Unauthorized("invalid secret".to_string())));
}

#[test]
fn a_first_submission_is_admitted() {
    let gate = keeper();
    let mut store = Store::new();
    assert_eq!(gate.check(&store, &post("A", -1.0e9, 0, "s3cret")), Verdict::Admitted);
    assert_eq!(gate.submit(&mut store, &post("A", -1.0e9, 0, "s3cret")), Ok(()));
    assert_eq!(store.get(&team("A")), Some(record(-1.0e9, 0)));
    assert_eq!(gate.submit(&mut store, &post("B", 0.0, -77, "s3cret")), Ok(()));
    assert_eq!(store.get(&team("B")), Some(record(0.0, -77)));
}

#[test]
fn a_lower_score_is_a_conflict_and_changes_nothing() {
    let gate = keeper();
    let mut store = Store::new();
    assert_eq!(gate.submit(&mut store, &post("A", 10.0, 100, "s3cret")), Ok(()));
    assert_eq!(gate.submit(&mut store, &post("B", 1.0, 100, "s3cret")), Ok(()));
    let outcome = gate.submit(&mut store, &post("A", 9.0, 50, "s3cret"));
    assert_eq!(outcome, Err(AppError::Conflict("score is lower than current".to_string())));
    assert_eq!(store.get(&team("A")), Some(record(10.0, 100)));
    assert_eq!(store.history().get(&team("A")), Some(&vec![record(10.0, 100)]));
    assert_eq!(store.history().get(&team("B")), Some(&vec![record(1.0, 100)]));
    assert_eq!(store.leaderboard().entries().len(), 2);
}

#[test]
fn an_equal_score_at_a_later_time_is_rejected() {
    let gate = keeper();
    let mut store = Store::new();
    let t0 = 1_700_000_000;
    assert_eq!(gate.submit(&mut store, &post("A", 10.0, t0, "s3cret")), Ok(()));
    let outcome = gate.submit(&mut store, &post("A", 10.0, t0 + 1, "s3cret"));
    assert_eq!(outcome, Err(AppError::Conflict("score is lower than current".to_string())));
    assert_eq!(store.get(&team("A")), Some(record(10.0, t0)));
    assert_eq!(store.history().get(&team("A")), Some(&vec![record(10.0, t0)]));
}

#[test]
fn an_equal_score_at_an_earlier_or_the_same_time_is_admitted() {
    let gate = keeper();
    let mut store = Store::new();
    assert_eq!(gate.submit(&mut store, &post("A", 10.0, 500, "s3cret")), Ok(()));
    assert_eq!(gate.submit(&mut store, &post("A", 10.0, 500, "s3cret")), Ok(()));
    assert_eq!(store.get(&team("A")), Some(record(10.0, 500)));
    assert_eq!(gate.submit(&mut store, &post("A", 10.0, 499, "s3cret")), Ok(()));
    assert_eq!(store.get(&team("A")), Some(record(10.0, 499)));
    assert_eq!(
        store.history().get(&team("A")),
        Some(&vec![record(10.0, 500), record(10.0, 500), record(10.0, 499)])
    );
}

#[test]
fn rising_scores_are_all_admitted() {
    let gate = keeper();
    let mut store = Store::new();
    for i in 0..20 {
        let outcome = gate.submit(&mut store, &post("A", i as f64 * 0.5, 1000 - i, "s3cret"));
        assert_eq!(outcome, Ok(()));
    }
    assert_eq!(store.get(&team("A")), Some(record(9.5, 981)));
    assert_eq!(store.history().get(&team("A")).map(|records| records.len()), Some(20));
}

#[test]
fn the_highest_score_wins_in_whatever_order_submissions_arrive() {
    let orders: [[i64; 4]; 6] =
        [[1, 2, 3, 4], [4, 3, 2, 1], [2, 4, 1, 3], [3, 1, 4, 2], [4, 1, 2, 3], [1, 4, 3, 2]];
    for order in orders {
        let gate = keeper();
        let mut store = Store::new();
        let mut admitted = 0;
        for n in order {
            if gate.submit(&mut store, &post("A", n as f64, 10 * n, "s3cret")).is_ok() {
                admitted += 1;
            }
        }
        assert_eq!(store.get(&team("A")), Some(record(4.0, 40)));
        assert_eq!(store.history().get(&team("A")).map(|records| records.len()), Some(admitted));
    }
}

#[test]
fn a_score_that_arrives_after_a_higher_one_is_rejected() {
    let gate = keeper();
    let mut store = Store::new();
    assert_eq!(gate.submit(&mut store, &post("A", 2.0, 1, "s3cret")), Ok(()));
    assert_eq!(gate.check(&store, &post("A", 1.0, 1, "s3cret")), Verdict::Conflict);
    assert!(gate.submit(&mut store, &post("A", 1.0, 1, "s3cret")).is_err());
}
