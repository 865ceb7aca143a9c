use eventsub_registry::manager::{apply_subscribe_outcomes, remove_all, BatchOutcome, Error};
use eventsub_registry::registry::Registry;

fn filled(pairs: &[(&str, &str)]) -> Registry {
    let mut reg = Registry::new();
    for (event, id) in pairs {
        reg.insert(event.to_string(), id.to_string());
    }
    reg
}

#[test]
fn subscribe_records_entry() {
    let mut reg = Registry::new();
    reg.insert("channel.follow".to_string(), "sub-1".to_string());
    assert_eq!(reg.len(), 1);
    assert!(reg.contains(&"channel.follow".to_string()));
    assert_eq!(
        reg.get(&"channel.follow".to_string()),
        Some(&"sub-1".to_string())
    );
}

#[test]
fn resubscribe_overwrites_entry() {
    let mut reg = Registry::new();
    reg.insert("channel.follow".to_string(), "sub-1".to_string());
    reg.insert("channel.follow".to_string(), "sub-2".to_string());
    assert_eq!(reg.len(), 1);
    assert_eq!(
        reg.get(&"channel.follow".to_string()),
        Some(&"sub-2".to_string())
    );
}

#[test]
fn unsubscribe_present_returns_stored_id() {
    let mut reg = filled(&[("channel.follow", "sub-1"), ("channel.raid", "sub-2")]);
    let removed = reg.remove(&"channel.follow".to_string());
    assert_eq!(removed, Some("sub-1".to_string()));
    assert!(!reg.contains(&"channel.follow".to_string()));
    assert_eq!(reg.len(), 1);
    assert_eq!(reg.get(&"channel.raid".to_string()), Some(&"sub-2".to_string()));
}

#[test]
fn unsubscribe_absent_is_a_no_op() {
    let mut reg = filled(&[("channel.raid", "sub-2")]);
    let removed = reg.remove(&"channel.follow".to_string());
    assert_eq!(removed, None);
    assert_eq!(reg.len(), 1);
    assert_eq!(reg.get(&"channel.raid".to_string()), Some(&"sub-2".to_string()));
}

#[test]
fn empty_registry_has_no_entries() {
    let reg = Registry::new();
    assert_eq!(reg.len(), 0);
    assert!(!reg.contains(&String::new()));
}

fn ok_item(event: &str, id: &str) -> BatchOutcome {
    BatchOutcome {
        event: event.to_string(),
        outcome: Ok(id.to_string()),
    }
}

fn failed_item(event: &str, cause: &str) -> BatchOutcome {
    BatchOutcome {
        event: event.to_string(),
        outcome: Err(cause.to_string()),
    }
}

#[test]
fn batch_subscribe_all_successes_recorded() {
    let mut reg = Registry::new();
    let items = vec![
        ok_item("channel.follow", "sub-1"),
        ok_item("channel.raid", "sub-2"),
        ok_item("channel.cheer", "sub-3"),
    ];
    let result = apply_subscribe_outcomes(&mut reg, items);
    assert!(result.is_ok());
    assert_eq!(reg.len(), 3);
    assert_eq!(reg.get(&"channel.raid".to_string()), Some(&"sub-2".to_string()));
}

#[test]
fn batch_subscribe_partial_failure_keeps_successes() {
    let mut reg = Registry::new();
    let items = vec![
        ok_item("channel.follow", "sub-1"),
        failed_item("channel.raid", "status 429"),
        ok_item("channel.cheer", "sub-3"),
    ];
    let result = apply_subscribe_outcomes(&mut reg, items);
    match result {
        Err(Error::Request(cause)) => assert_eq!(cause, "status 429"),
        _ => panic!("expected the failing member's request error"),
    }
    assert_eq!(reg.len(), 2);
    assert_eq!(reg.get(&"channel.follow".to_string()), Some(&"sub-1".to_string()));
    assert_eq!(reg.get(&"channel.cheer".to_string()), Some(&"sub-3".to_string()));
    assert!(!reg.contains(&"channel.raid".to_string()));
}

#[test]
fn batch_subscribe_reports_first_failure() {
    let mut reg = Registry::new();
    let items = vec![
        failed_item("channel.follow", "first cause"),
        failed_item("channel.raid", "second cause"),
        ok_item("channel.cheer", "sub-3"),
    ];
    let result = apply_subscribe_outcomes(&mut reg, items);
    match result {
        Err(Error::Request(cause)) => assert_eq!(cause, "first cause"),
        _ => panic!("expected the first failing member's request error"),
    }
    assert_eq!(reg.len(), 1);
}

#[test]
fn concurrent_distinct_subscribes_lose_no_update() {
    // The registry lock linearizes concurrent single-item operations into
    // some order; whatever that order, distinct event types end up with
    // exactly one correct entry each.
    let forward = vec![
        ok_item("a.follow", "sub-1"),
        ok_item("b.raid", "sub-2"),
        ok_item("c.cheer", "sub-3"),
        ok_item("d.ban", "sub-4"),
    ];
    let backward = vec![
        ok_item("d.ban", "sub-4"),
        ok_item("c.cheer", "sub-3"),
        ok_item("b.raid", "sub-2"),
        ok_item("a.follow", "sub-1"),
    ];
    let mut reg1 = Registry::new();
    let mut reg2 = Registry::new();
    assert!(apply_subscribe_outcomes(&mut reg1, forward).is_ok());
    assert!(apply_subscribe_outcomes(&mut reg2, backward).is_ok());
    assert_eq!(reg1.len(), 4);
    assert_eq!(reg2.len(), 4);
    for (event, id) in [
        ("a.follow", "sub-1"),
        ("b.raid", "sub-2"),
        ("c.cheer", "sub-3"),
        ("d.ban", "sub-4"),
    ] {
        assert_eq!(reg1.get(&event.to_string()), Some(&id.to_string()));
        assert_eq!(reg2.get(&event.to_string()), Some(&id.to_string()));
    }
}

#[test]
fn batch_unsubscribe_removes_every_named_key() {
    let mut reg = filled(&[
        ("channel.follow", "sub-1"),
        ("channel.raid", "sub-2"),
        ("channel.cheer", "sub-3"),
    ]);
    let events = vec![
        "channel.follow".to_string(),
        "channel.ban".to_string(),
        "channel.cheer".to_string(),
    ];
    // The ids come back so the caller can issue the delete calls; a failing
    // delete changes nothing here, the local entries are already gone.
    let ids = remove_all(&mut reg, &events);
    assert_eq!(
        ids,
        vec![Some("sub-1".to_string()), None, Some("sub-3".to_string())]
    );
    assert_eq!(reg.len(), 1);
    assert!(!reg.contains(&"channel.follow".to_string()));
    assert!(!reg.contains(&"channel.cheer".to_string()));
    assert_eq!(reg.get(&"channel.raid".to_string()), Some(&"sub-2".to_string()));
}

#[test]
fn batch_unsubscribe_duplicate_event_removed_once() {
    let mut reg = filled(&[("channel.follow", "sub-1")]);
    let events = vec!["channel.follow".to_string(), "channel.follow".to_string()];
    let ids = remove_all(&mut reg, &events);
    assert_eq!(ids, vec![Some("sub-1".to_string()), None]);
    assert_eq!(reg.len(), 0);
}
