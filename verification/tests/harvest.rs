use exchange_pipeline::harvester::apply_cursor;
use exchange_pipeline::harvester::plan_harvest;
use exchange_pipeline::harvester::ArtistEntry;
use exchange_pipeline::harvester::FIRST_RUN_LIMIT;

fn listing(ids: &[&str]) -> Vec<String> {
    ids.iter().map(|s| s.to_string()).collect()
}

#[test]
fn ingests_the_new_head_oldest_first() {
    let ids = listing(&["103", "102", "101", "100", "99"]);
    let step = plan_harvest(&ids, &Some("100".to_string()), FIRST_RUN_LIMIT);
    assert_eq!(step.to_ingest, vec!["101", "102", "103"]);
    assert_eq!(step.new_cursor, Some("103".to_string()));
}

#[test]
fn a_cursor_at_the_head_yields_nothing() {
    let ids = listing(&["103", "102", "101"]);
    let step = plan_harvest(&ids, &Some("103".to_string()), FIRST_RUN_LIMIT);
    assert!(step.to_ingest.is_empty());
    assert_eq!(step.new_cursor, None);
}

#[test]
fn a_scrolled_off_cursor_yields_nothing() {
    let ids = listing(&["103", "102", "101"]);
    let step = plan_harvest(&ids, &Some("42".to_string()), FIRST_RUN_LIMIT);
    assert!(step.to_ingest.is_empty());
    assert_eq!(step.new_cursor, None);
}

#[test]
fn first_run_is_bounded_to_the_recent_window() {
    let ids = listing(&[
        "112", "111", "110", "109", "108", "107", "106", "105", "104", "103", "102", "101",
    ]);
    let step = plan_harvest(&ids, &None, FIRST_RUN_LIMIT);
    assert_eq!(step.to_ingest.len(), 10);
    assert_eq!(
        step.to_ingest,
        vec!["103", "104", "105", "106", "107", "108", "109", "110", "111", "112"]
    );
    assert_eq!(step.new_cursor, Some("112".to_string()));
}

#[test]
fn an_empty_listing_changes_nothing() {
    let ids: Vec<String> = Vec::new();
    let step = plan_harvest(&ids, &Some("100".to_string()), FIRST_RUN_LIMIT);
    assert!(step.to_ingest.is_empty());
    assert_eq!(step.new_cursor, None);
}

#[test]
fn the_cursor_moves_only_on_a_new_id() {
    let mut entry = ArtistEntry {
        author_name: Some("ada".to_string()),
        platform: "patreon".to_string(),
        user_id: "82530106".to_string(),
        domain: "kemono.cr".to_string(),
        last_ingested: Some("100".to_string()),
    };
    apply_cursor(&mut entry, None);
    assert_eq!(entry.last_ingested, Some("100".to_string()));
    apply_cursor(&mut entry, Some("103".to_string()));
    assert_eq!(entry.last_ingested, Some("103".to_string()));
    assert_eq!(entry.user_id, "82530106");
}

#[test]
fn the_first_occurrence_of_the_cursor_stops_the_scan() {
    let ids = listing(&["103", "100", "101", "100"]);
    let step = plan_harvest(&ids, &Some("100".to_string()), FIRST_RUN_LIMIT);
    assert_eq!(step.to_ingest, vec!["103"]);
    assert_eq!(step.new_cursor, Some("103".to_string()));
}
