use clan_hiscores::rank::evaluate_rank;
use clan_hiscores::rank::Rank;
use clan_hiscores::results::PlayerRecord;
use clan_hiscores::snapshot::{
    check_for_promotions, compare_results, create_previous_results_map, render_snapshot,
    store_daily_ranks, RankSnapshot, SnapshotStore,
};
use clan_hiscores::text::trimmed_username;

fn record(name: &str, total: i64, rank: Rank) -> PlayerRecord {
    PlayerRecord {
        username: name.to_string(),
        total_points: total,
        pvm_points: 0,
        skilling_points: 0,
        activities_points: 0,
        rank,
    }
}

#[test]
fn rank_names_round_trip() {
    let all = [
        Rank::Unranked,
        Rank::RedTopaz,
        Rank::Sapphire,
        Rank::Emerald,
        Rank::Ruby,
        Rank::Diamond,
        Rank::Dragonstone,
        Rank::Onyx,
        Rank::Zenyte,
        Rank::Death,
        Rank::Blood,
        Rank::Soul,
        Rank::Wrath,
    ];
    for r in all {
        assert_eq!(Rank::from_name(&r.name()), r);
    }
    assert_eq!(Rank::from_name("NoSuchTier"), Rank::Unranked);
}

#[test]
fn rank_bands_are_exact() {
    assert_eq!(evaluate_rank(&-3), Rank::Unranked);
    assert_eq!(evaluate_rank(&0), Rank::Unranked);
    assert_eq!(evaluate_rank(&1), Rank::RedTopaz);
    assert_eq!(evaluate_rank(&199), Rank::RedTopaz);
    assert_eq!(evaluate_rank(&200), Rank::Sapphire);
    assert_eq!(evaluate_rank(&499), Rank::Sapphire);
    assert_eq!(evaluate_rank(&500), Rank::Emerald);
    assert_eq!(evaluate_rank(&750), Rank::Ruby);
    assert_eq!(evaluate_rank(&999), Rank::Ruby);
    assert_eq!(evaluate_rank(&1000), Rank::Diamond);
    assert_eq!(evaluate_rank(&1500), Rank::Dragonstone);
    assert_eq!(evaluate_rank(&2000), Rank::Onyx);
    assert_eq!(evaluate_rank(&3000), Rank::Zenyte);
    assert_eq!(evaluate_rank(&4000), Rank::Death);
    assert_eq!(evaluate_rank(&5000), Rank::Blood);
    assert_eq!(evaluate_rank(&6000), Rank::Soul);
    assert_eq!(evaluate_rank(&7999), Rank::Soul);
    assert_eq!(evaluate_rank(&8000), Rank::Wrath);
}

#[test]
fn snapshot_round_trip_preserves_the_mapping() {
    let mut snap = RankSnapshot::new();
    // identifiers as normalization yields them, including inner spaces
    for raw in [" \"Zez,ima\" ", "a b c", "\" padded \"", "plain"] {
        snap.push(trimmed_username(raw), Rank::Ruby);
    }
    snap.push(trimmed_username("last"), Rank::Diamond);
    let text = render_snapshot(&snap);
    let read = create_previous_results_map(text);
    assert_eq!(read.entries.len(), snap.entries.len());
    for (name, rank) in &snap.entries {
        assert_eq!(read.get(name), Some(*rank), "identifier {:?} did not round trip", name);
    }
}

#[test]
fn snapshot_lines_look_like_the_stored_format() {
    let mut snap = RankSnapshot::new();
    snap.push("Zezima".to_string(), Rank::Wrath);
    assert_eq!(render_snapshot(&snap), "\"Zezima\", Wrath\n");
}

#[test]
fn reading_ignores_lines_without_a_comma() {
    let read = create_previous_results_map("nonsense\n\"a\", Ruby\n\n".to_string());
    assert_eq!(read.entries.len(), 1);
    assert_eq!(read.get("a"), Some(Rank::Ruby));
    assert_eq!(read.get("nonsense"), None);
}

#[test]
fn diff_reports_only_changed_players() {
    let mut prior = RankSnapshot::new();
    prior.push("A".to_string(), Rank::Sapphire);
    prior.push("B".to_string(), Rank::Ruby);
    let current = vec![
        record("A", 300, Rank::Sapphire),
        record("B", 1200, Rank::Diamond),
        record("C", 0, Rank::Unranked),
    ];
    let transitions = compare_results(&current, &prior);
    assert_eq!(transitions.len(), 1);
    assert_eq!(transitions[0].username, "B");
    assert_eq!(transitions[0].previous, Rank::Ruby);
    assert_eq!(transitions[0].current, Rank::Diamond);
}

#[test]
fn no_prior_snapshot_means_no_transitions() {
    let store = SnapshotStore::new();
    let out = check_for_promotions(&vec![record("A", 300, Rank::Sapphire)], &store);
    assert!(out.is_empty());
}

#[test]
fn latest_snapshot_wins_by_stamp_not_order() {
    let mut store = SnapshotStore::new();
    let results_old = vec![record("A", 300, Rank::Sapphire)];
    let results_mid = vec![record("A", 900, Rank::Ruby)];
    let results_new = vec![record("A", 1200, Rank::Diamond)];
    store_daily_ranks(&results_new, &mut store, 2026, 3, 9);
    store_daily_ranks(&results_old, &mut store, 2026, 3, 1);
    store_daily_ranks(&results_mid, &mut store, 2026, 3, 5);
    let latest = store.latest().unwrap();
    assert_eq!(latest.get("A"), Some(Rank::Diamond));
}

#[test]
fn storing_daily_ranks_names_and_renders_the_file() {
    let mut store = SnapshotStore::new();
    let results = vec![record(" \"B,ob\" ", 900, Rank::Ruby), record("Alice", 300, Rank::Sapphire)];
    let (name, content) = store_daily_ranks(&results, &mut store, 2026, 5, 3);
    assert_eq!(name, "2026-5-3-RANKS.txt");
    assert_eq!(content, "\"Bob\", Ruby\n\"Alice\", Sapphire\n");
    assert_eq!(store.entries.len(), 1);
    // the diff of the same run against what was just stored is empty
    let transitions = check_for_promotions(&results, &store);
    assert!(transitions.is_empty());
}

#[test]
fn empty_snapshot_renders_to_nothing_and_reads_back_empty() {
    let snap = RankSnapshot::new();
    assert_eq!(render_snapshot(&snap), "");
    let read = create_previous_results_map(String::new());
    assert!(read.entries.is_empty());
    assert_eq!(read.get("anyone"), None);
}

#[test]
fn later_entries_shadow_earlier_ones_on_lookup() {
    let mut snap = RankSnapshot::new();
    snap.push("A".to_string(), Rank::Ruby);
    snap.push("A".to_string(), Rank::Diamond);
    assert_eq!(snap.get("A"), Some(Rank::Diamond));
}
