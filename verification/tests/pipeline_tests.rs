use clan_hiscores::fetch::{classify_payload, next_fetch_action, split_batches, FetchAction, PayloadKind};
use clan_hiscores::htmlwriter::{generate_hiscores_details_page, generate_index_page};
use clan_hiscores::milestone::Milestone;
use clan_hiscores::rank::Rank;
use clan_hiscores::results::{build_record, category_points, process_results_into_frontend_data, sort_by_total_desc, PlayerRecord};
use clan_hiscores::score::{score_player, validate_config, Entry, HiScoreCategory, HiScoreStructure, ScoreError};

fn entry(name: &str, pairs: &[(i64, i64)]) -> Entry {
    Entry {
        name: name.to_string(),
        milestones: pairs.iter().map(|&(threshold, reward)| Milestone { threshold, reward }).collect(),
    }
}

fn category(name: &str, entries: Vec<Entry>) -> HiScoreCategory {
    HiScoreCategory { name: name.to_string(), entries }
}

fn three_category_config() -> HiScoreStructure {
    HiScoreStructure(vec![
        category("Skilling", vec![entry("Attack", &[(10, 5), (50, 5)])]),
        category("Clues and Activities", vec![entry("Clue Scrolls", &[(5, 3)])]),
        category("PVM", vec![entry("Zulrah", &[(-1, 50)])]),
    ])
}

#[test]
fn scores_a_well_formed_payload() {
    let config = three_category_config();
    // skilling line: rank, level, experience; others: rank, level
    let raw = "1,99,200\n2,7\n3,125\n";
    let sheet = score_player(raw, &config).unwrap();
    assert_eq!(sheet.categories.len(), 3);
    assert_eq!(sheet.categories[0].name, "Skilling");
    assert_eq!(sheet.categories[0].evaluated_entries[0].score, 200);
    assert_eq!(sheet.categories[0].points, 10);
    assert_eq!(sheet.categories[1].points, 3);
    // per-unit sentinel: 2 * floor(125 / 50)
    assert_eq!(sheet.categories[2].points, 4);
    assert_eq!(sheet.points, 17);
}

#[test]
fn malformed_level_in_second_category_keeps_only_first() {
    let config = three_category_config();
    let raw = "1,99,200\n2,notanumber\n3,125\n";
    let sheet = score_player(raw, &config).unwrap();
    assert_eq!(sheet.categories.len(), 1);
    assert_eq!(sheet.categories[0].name, "Skilling");
    assert_eq!(sheet.points, 10);
}

#[test]
fn malformed_skilling_score_truncates_like_level() {
    let config = three_category_config();
    let raw = "1,99,bad\n2,7\n3,125\n";
    let sheet = score_player(raw, &config).unwrap();
    assert_eq!(sheet.categories.len(), 0);
    assert_eq!(sheet.points, 0);
}

#[test]
fn missing_lines_end_usable_data() {
    let config = three_category_config();
    let sheet = score_player("1,99,200\n", &config).unwrap();
    assert_eq!(sheet.categories.len(), 1);
    assert_eq!(sheet.points, 10);
}

#[test]
fn negative_levels_are_clamped_to_zero() {
    let config = HiScoreStructure(vec![category("Other", vec![entry("Thing", &[(0, 9)])])]);
    let sheet = score_player("1,-5\n", &config).unwrap();
    assert_eq!(sheet.categories[0].evaluated_entries[0].score, 0);
    // a clamped zero score earns zero points regardless of the table
    assert_eq!(sheet.points, 0);
}

#[test]
fn zero_reward_sentinel_names_the_entry() {
    let config = HiScoreStructure(vec![category("PVM", vec![entry("Zulrah", &[(-1, 0)])])]);
    match score_player("1,3\n", &config) {
        Err(ScoreError::ZeroRewardSentinel { category, entry }) => {
            assert_eq!(category, "PVM");
            assert_eq!(entry, "Zulrah");
        },
        other => panic!("expected a zero-reward sentinel error, got {:?}", other),
    }
}

#[test]
fn validate_config_accepts_and_rejects() {
    assert!(validate_config(&three_category_config()).is_ok());
    let bad = HiScoreStructure(vec![
        category("Skilling", vec![entry("Attack", &[(10, 5)])]),
        category("PVM", vec![entry("Zulrah", &[(-1, 0)])]),
    ]);
    let err = validate_config(&bad).unwrap_err();
    let msg = err.message();
    assert!(msg.contains("Zulrah"));
    assert!(msg.contains("PVM"));
}

#[test]
fn players_with_at_most_one_point_are_excluded() {
    let config = HiScoreStructure(vec![category("Other", vec![entry("Thing", &[(1, 1)])])]);
    let one = score_player("1,1\n", &config).unwrap();
    assert_eq!(one.points, 1);
    assert!(build_record("a", &one, "Skilling", "Clues and Activities", "PVM").is_none());

    let config2 = HiScoreStructure(vec![category("Other", vec![entry("Thing", &[(1, 2)])])]);
    let two = score_player("1,1\n", &config2).unwrap();
    assert_eq!(two.points, 2);
    let rec = build_record("a", &two, "Skilling", "Clues and Activities", "PVM").unwrap();
    assert_eq!(rec.total_points, 2);
    assert_eq!(rec.rank, Rank::RedTopaz);
}

#[test]
fn category_points_are_found_by_name_not_position() {
    let config = three_category_config();
    let sheet = score_player("1,99,200\n2,7\n3,125\n", &config).unwrap();
    assert_eq!(category_points(&sheet, "Skilling"), 10);
    assert_eq!(category_points(&sheet, "Clues and Activities"), 3);
    assert_eq!(category_points(&sheet, "PVM"), 4);
    assert_eq!(category_points(&sheet, "Unknown"), 0);
    // a truncated sheet still answers by name
    let truncated = score_player("1,99,200\nbad\n", &config).unwrap();
    assert_eq!(category_points(&truncated, "PVM"), 0);
    assert_eq!(category_points(&truncated, "Skilling"), 10);
}

fn record(name: &str, total: i64) -> PlayerRecord {
    PlayerRecord {
        username: name.to_string(),
        total_points: total,
        pvm_points: 1,
        skilling_points: 2,
        activities_points: 3,
        rank: Rank::Sapphire,
    }
}

#[test]
fn sorting_is_descending_and_keeps_records() {
    let mut v = vec![record("a", 5), record("b", 50), record("c", 20), record("d", 50)];
    sort_by_total_desc(&mut v);
    let totals: Vec<i64> = v.iter().map(|r| r.total_points).collect();
    assert_eq!(totals, vec![50, 50, 20, 5]);
    let mut names: Vec<String> = v.iter().map(|r| r.username.clone()).collect();
    names.sort();
    assert_eq!(names, vec!["a", "b", "c", "d"]);
}

#[test]
fn frontend_rows_carry_normalized_names_and_rank_names() {
    let rows = process_results_into_frontend_data(&vec![record(" \"Zez,ima\" ", 5)]);
    assert_eq!(rows.len(), 1);
    assert_eq!(rows[0].0, "Zezima");
    assert_eq!(rows[0].1, 5);
    assert_eq!(rows[0].2, 2);
    assert_eq!(rows[0].3, 3);
    assert_eq!(rows[0].4, 1);
    assert_eq!(rows[0].5, "Sapphire");
}

#[test]
fn payload_classification() {
    assert_eq!(
        classify_payload("<!DOCTYPE html><html><head><title>404 - Page not found</title>"),
        PayloadKind::NotFound
    );
    assert_eq!(classify_payload("<html>loading</html>"), PayloadKind::Loading);
    assert_eq!(classify_payload("1,99,200\n"), PayloadKind::Data);
    assert_eq!(classify_payload(""), PayloadKind::Data);
}

#[test]
fn retry_policy() {
    assert_eq!(next_fetch_action(PayloadKind::Data, 0, 5), FetchAction::UseData);
    assert_eq!(next_fetch_action(PayloadKind::NotFound, 0, 5), FetchAction::SkipPlayer);
    assert_eq!(next_fetch_action(PayloadKind::Loading, 2, 5), FetchAction::RetryAfterWait);
    assert_eq!(next_fetch_action(PayloadKind::Loading, 5, 5), FetchAction::GiveUp);
}

#[test]
fn batches_preserve_order_and_size() {
    let names: Vec<String> = (0..7).map(|i| format!("p{}", i)).collect();
    let batches = split_batches(names.clone(), 3);
    assert_eq!(batches.len(), 3);
    assert_eq!(batches[0].len(), 3);
    assert_eq!(batches[1].len(), 3);
    assert_eq!(batches[2].len(), 1);
    let flat: Vec<String> = batches.into_iter().flatten().collect();
    assert_eq!(flat, names);
}

#[test]
fn details_page_is_rendered_exactly() {
    let config = HiScoreStructure(vec![category("Skilling", vec![entry("Attack", &[(2, 2)])])]);
    let sheet = score_player("1,9,3\n", &config).unwrap();
    let html = generate_hiscores_details_page("ab", &sheet);
    let expected = "<!DOCTYPE html>\n<html>\n<head>\n\
<link rel=\"stylesheet\" href=\"../../style.css\">\n</head>\n<body>\n\
<h1>Details for ab</h1>\n<h2>Total Points: 2</h2>\n\
<div class=\"category\">\n<h3>Skilling</h3>\n<table>\n\
<tr><th>Entry</th><th>Score</th><th>Points</th></tr>\n\
<tr><td>Attack</td><td>3</td><td>2</td></tr>\n\
</table>\n</div>\n</body>\n</html>\n";
    assert_eq!(html, expected);
}

#[test]
fn index_page_lists_players() {
    let html = generate_index_page(&vec![record("Zezima", 5)]);
    assert!(html.contains("<td>Zezima</td>"));
    assert!(html.contains("<td>5</td>"));
    assert!(html.contains("<td>Sapphire</td>"));
    assert!(html.starts_with("<!DOCTYPE html>"));
    assert!(html.ends_with("</html>\n"));
}

#[test]
fn no_players_make_no_batches() {
    let batches = split_batches(Vec::new(), 10);
    assert!(batches.is_empty());
}

#[test]
fn an_empty_payload_keeps_no_categories() {
    let config = three_category_config();
    let sheet = score_player("", &config).unwrap();
    assert!(sheet.categories.is_empty());
    assert_eq!(sheet.points, 0);
}
