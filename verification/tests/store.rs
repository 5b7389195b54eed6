use leaderboard::history::{copy_records, History};
use leaderboard::leaderboard::Leaderboard;
use leaderboard::record::{best_record, Record, Timestamp};
use leaderboard::score::Score;
use leaderboard::store::Store;

fn entry(score: f64, secs: i64) -> Record {
    Record {
        score: Score::from_bits(score.to_bits()).expect("a finite number"),
        time: Timestamp { secs, nanos: 0 },
    }
}

fn name(team: &str) -> String {
    team.to_string()
}

fn consistent(store: &Store) -> bool {
    let history = store.history();
    let board = store.leaderboard();
    let listed = board.entries().len();
    let mut with_records = 0;
    for (team, records) in history.entries() {
        if board.get(team) != best_record(records) {
            return false;
        }
        if !records.is_empty() {
            with_records += 1;
        }
    }
    listed == with_records
}

#[test]
fn an_empty_store_knows_no_team() {
    let store = Store::new();
    assert_eq!(store.get(&name("A")), None);
    assert!(store.history().entries().is_empty());
    assert!(store.leaderboard().entries().is_empty());
    assert!(store.ranked().is_empty());
}

#[test]
fn appending_lists_the_team_at_its_best() {
    let mut store = Store::new();
    store.append(&name("A"), entry(3.0, 10));
    assert_eq!(store.get(&name("A")), Some(entry(3.0, 10)));
    store.append(&name("A"), entry(5.0, 20));
    assert_eq!(store.get(&name("A")), Some(entry(5.0, 20)));
    store.append(&name("A"), entry(4.0, 30));
    assert_eq!(store.get(&name("A")), Some(entry(5.0, 20)));
    store.append(&name("A"), entry(5.0, 15));
    assert_eq!(store.get(&name("A")), Some(entry(5.0, 15)));
    store.append(&name("A"), entry(5.0, 40));
    assert_eq!(store.get(&name("A")), Some(entry(5.0, 15)));
    assert_eq!(
        store.history().get(&name("A")),
        Some(&vec![entry(3.0, 10), entry(5.0, 20), entry(4.0, 30), entry(5.0, 15), entry(5.0, 40)])
    );
    assert_eq!(store.get(&name("B")), None);
    assert_eq!(store.history().get(&name("B")), None);
}

#[test]
fn the_leaderboard_is_the_best_of_each_history() {
    let mut store = Store::new();
    assert!(consistent(&store));
    let arrivals = [
        ("A", 1.0, 1),
        ("B", 7.0, 2),
        ("A", 9.0, 3),
        ("C", -1.0, 4),
        ("B", 7.0, 1),
        ("A", 2.0, 5),
        ("C", -1.0, 9),
        ("B", 6.5, 6),
    ];
    for (team, score, secs) in arrivals {
        store.append(&name(team), entry(score, secs));
        assert!(consistent(&store));
    }
    assert_eq!(store.get(&name("A")), Some(entry(9.0, 3)));
    assert_eq!(store.get(&name("B")), Some(entry(7.0, 1)));
    assert_eq!(store.get(&name("C")), Some(entry(-1.0, 4)));
}

#[test]
fn teams_do_not_touch_each_other() {
    let mut store = Store::new();
    store.append(&name("A"), entry(1.0, 1));
    store.append(&name("B"), entry(100.0, 2));
    assert_eq!(store.get(&name("A")), Some(entry(1.0, 1)));
    assert_eq!(store.history().get(&name("A")), Some(&vec![entry(1.0, 1)]));
    assert_eq!(store.history().get(&name("B")), Some(&vec![entry(100.0, 2)]));
}

#[test]
fn the_ranking_runs_from_the_best_team_down() {
    let mut store = Store::new();
    store.append(&name("low"), entry(1.0, 5));
    store.append(&name("late"), entry(8.0, 9));
    store.append(&name("top"), entry(12.5, 7));
    store.append(&name("early"), entry(8.0, 2));
    store.append(&name("low"), entry(0.5, 6));
    let ranking = store.ranked();
    assert_eq!(
        ranking,
        vec![
            (name("top"), entry(12.5, 7)),
            (name("early"), entry(8.0, 2)),
            (name("late"), entry(8.0, 9)),
            (name("low"), entry(1.0, 5)),
        ]
    );
    assert_eq!(store.leaderboard().ranked(), ranking);
}

#[test]
fn a_snapshot_is_a_copy_of_its_own() {
    let mut store = Store::new();
    store.append(&name("A"), entry(1.0, 1));
    let snapshot = store.snapshot();
    store.append(&name("A"), entry(2.0, 2));
    store.append(&name("B"), entry(3.0, 3));
    assert_eq!(snapshot.get(&name("A")), Some(entry(1.0, 1)));
    assert_eq!(snapshot.get(&name("B")), None);
    assert_eq!(snapshot.history().get(&name("A")), Some(&vec![entry(1.0, 1)]));
    assert!(consistent(&snapshot));
    assert_eq!(store.get(&name("A")), Some(entry(2.0, 2)));
}

#[test]
fn restoring_derives_the_leaderboard_from_the_history() {
    let mut history = History::new();
    history.insert(name("A"), vec![entry(2.0, 1), entry(6.0, 2), entry(4.0, 3)]);
    history.insert(name("idle"), Vec::new());
    history.insert(name("B"), vec![entry(6.0, 1)]);
    let store = Store::restore(history);
    assert_eq!(store.get(&name("A")), Some(entry(6.0, 2)));
    assert_eq!(store.get(&name("B")), Some(entry(6.0, 1)));
    assert_eq!(store.get(&name("idle")), None);
    assert_eq!(store.leaderboard().entries().len(), 2);
    assert_eq!(store.history().get(&name("idle")), Some(&Vec::new()));
    assert!(consistent(&store));
    assert_eq!(store.ranked(), vec![(name("B"), entry(6.0, 1)), (name("A"), entry(6.0, 2))]);
}

#[test]
fn inserting_replaces_the_records_of_a_team() {
    let mut history = History::new();
    history.insert(name("A"), vec![entry(1.0, 1)]);
    history.insert(name("B"), vec![entry(2.0, 2)]);
    history.insert(name("A"), vec![entry(3.0, 3), entry(4.0, 4)]);
    assert_eq!(history.get(&name("A")), Some(&vec![entry(3.0, 3), entry(4.0, 4)]));
    assert_eq!(history.get(&name("B")), Some(&vec![entry(2.0, 2)]));
    assert_eq!(history.entries().len(), 2);
}

#[test]
fn appending_to_a_history_keeps_arrival_order() {
    let mut history = History::new();
    history.append(&name("A"), entry(5.0, 1));
    history.append(&name("B"), entry(1.0, 2));
    history.append(&name("A"), entry(2.0, 3));
    let entries = history.entries();
    assert_eq!(entries.len(), 2);
    assert_eq!(entries[0], (name("A"), vec![entry(5.0, 1), entry(2.0, 3)]));
    assert_eq!(entries[1], (name("B"), vec![entry(1.0, 2)]));
}

#[test]
fn a_copied_history_holds_the_same_records() {
    let mut history = History::new();
    history.append(&name("A"), entry(5.0, 1));
    history.append(&name("B"), entry(1.0, 2));
    let copy = history.copy();
    history.append(&name("A"), entry(9.0, 9));
    assert_eq!(copy.entries().len(), 2);
    assert_eq!(copy.get(&name("A")), Some(&vec![entry(5.0, 1)]));
    assert_eq!(copy.get(&name("B")), Some(&vec![entry(1.0, 2)]));
    let records = vec![entry(1.0, 1), entry(2.0, 2)];
    assert_eq!(copy_records(&records), records);
}

#[test]
fn a_leaderboard_from_a_history_skips_teams_without_records() {
    let mut history = History::new();
    history.insert(name("none"), Vec::new());
    history.insert(name("some"), vec![entry(1.0, 3), entry(1.0, 2)]);
    let board = Leaderboard::from(&history);
    assert_eq!(board.get(&name("none")), None);
    assert_eq!(board.get(&name("some")), Some(entry(1.0, 2)));
    let copy = board.copy();
    assert_eq!(copy.entries(), board.entries());
    assert_eq!(Leaderboard::new().get(&name("some")), None);
}
