use exchange_pipeline::aggregator::batch_folder_name;
use exchange_pipeline::aggregator::batch_staging_paths;
use exchange_pipeline::aggregator::on_attachment;
use exchange_pipeline::aggregator::take_if_idle;
use exchange_pipeline::aggregator::QueuedAttachment;
use exchange_pipeline::aggregator::IDLE_TIMEOUT_SECS;

fn item(id: &str) -> QueuedAttachment {
    QueuedAttachment { file_id: id.to_string(), original_path: id.to_string() }
}

#[test]
fn one_idle_user_flushes_one_batch_in_arrival_order() {
    let (slot, superseded) = on_attachment(None, 7, item("A1"), 0);
    assert!(superseded.is_none());
    let (slot, superseded) = on_attachment(slot, 7, item("A2"), 1);
    assert!(superseded.is_none());

    let (slot, flushed) = take_if_idle(slot, 1 + IDLE_TIMEOUT_SECS, IDLE_TIMEOUT_SECS);
    let batch = flushed.expect("the idle batch should be taken");
    assert_eq!(batch.owner, 7);
    let ids: Vec<&str> = batch.items.iter().map(|a| a.file_id.as_str()).collect();
    assert_eq!(ids, vec!["A1", "A2"]);
    assert!(slot.is_none());
}

#[test]
fn a_live_batch_is_not_taken() {
    let (slot, _) = on_attachment(None, 7, item("A1"), 10);
    let (slot, flushed) = take_if_idle(slot, 10 + IDLE_TIMEOUT_SECS - 1, IDLE_TIMEOUT_SECS);
    assert!(flushed.is_none());
    let batch = slot.expect("the live batch stays in place");
    assert_eq!(batch.owner, 7);
    assert_eq!(batch.items.len(), 1);
}

#[test]
fn an_empty_slot_has_nothing_to_flush() {
    let (slot, flushed) = take_if_idle(None, 100, IDLE_TIMEOUT_SECS);
    assert!(slot.is_none());
    assert!(flushed.is_none());
}

#[test]
fn another_user_supersedes_but_the_old_batch_is_handed_back() {
    let (slot, _) = on_attachment(None, 7, item("A1"), 0);
    let (slot, _) = on_attachment(slot, 7, item("A2"), 1);
    let (slot, superseded) = on_attachment(slot, 9, item("B1"), 2);

    let old = superseded.expect("the superseded batch must be handed back");
    assert_eq!(old.owner, 7);
    assert_eq!(old.items.len(), 2);

    let fresh = slot.expect("the new user owns the slot");
    assert_eq!(fresh.owner, 9);
    let ids: Vec<&str> = fresh.items.iter().map(|a| a.file_id.as_str()).collect();
    assert_eq!(ids, vec!["B1"]);
}

#[test]
fn batch_folders_are_named_from_user_and_timestamp() {
    let name = batch_folder_name(123456789, "20240101T120000");
    assert_eq!(name, "123456789_20240101T120000");
    let (tmp, fin) = batch_staging_paths(&name);
    assert_eq!(tmp, "exchange/messages_tmp/123456789_20240101T120000");
    assert_eq!(fin, "exchange/messages/123456789_20240101T120000");
}

#[test]
fn the_same_user_appends_even_after_a_long_pause() {
    let (slot, _) = on_attachment(None, 7, item("A1"), 0);
    let (slot, superseded) = on_attachment(slot, 7, item("A2"), 1000);
    assert!(superseded.is_none());
    let batch = slot.expect("the batch stays active");
    assert_eq!(batch.items.len(), 2);
    assert_eq!(batch.last_activity, 1000);
}
