use core_flasher::calendar::{
    all_events, detect_conflicts, preview, propagate, repeated_events, resolve_conflict, run_sync,
    text_at_or_after, CalendarEvent, CalendarSource, SyncConflict,
};

fn source(id: &str, kind: &str) -> CalendarSource {
    CalendarSource {
        id: id.to_string(),
        source_type: kind.to_string(),
        name: kind.to_string(),
        config: "{}".to_string(),
        added_at: "2024-01-01 00:00:00".to_string(),
        url: None,
    }
}

fn event(uid: &str, summary: &str, start: &str, source_id: &str, modified: &str) -> CalendarEvent {
    CalendarEvent {
        uid: uid.to_string(),
        summary: summary.to_string(),
        description: None,
        dtstart: start.to_string(),
        dtend: None,
        location: None,
        source_id: source_id.to_string(),
        last_modified: modified.to_string(),
    }
}

fn two_sources() -> (Vec<CalendarSource>, Vec<Vec<CalendarEvent>>) {
    let sources = vec![source("s1", "ics"), source("s2", "caldav")];
    let events = vec![
        vec![
            event("u1", "Standup", "20240101T090000", "s1", "2024-01-02"),
            event("u2", "Lunch", "20240101T120000", "s1", "2024-01-01"),
        ],
        vec![
            event("u1", "Standup (moved)", "20240101T093000", "s2", "2024-01-03"),
            event("u3", "Lunch", "20240101T120000", "s2", "2024-01-01"),
        ],
    ];
    (sources, events)
}

#[test]
fn sync_without_sources() {
    let r = run_sync(&[], &[], true, true, "newest");
    assert_eq!(r.message, "No sources configured. Add a calendar source first.");
    assert!(r.new_events.is_empty());
}

#[test]
fn full_sync_counts_and_message() {
    let (sources, events) = two_sources();
    let r = run_sync(&sources, &events, true, true, "newest");
    assert_eq!(r.total_deduped, 1);
    assert_eq!(r.duplicates[0].uid, "u3");
    assert_eq!(r.total_conflicts, 1);
    assert_eq!(r.conflicts[0].event_uid, "u1");
    assert_eq!(r.conflicts[0].resolution, Some("target".to_string()));
    let moved: Vec<(String, String)> = r.new_events.iter().map(|e| (e.uid.clone(), e.source_id.clone())).collect();
    assert_eq!(moved, vec![("u2".to_string(), "s2".to_string()), ("u3".to_string(), "s1".to_string())]);
    assert_eq!(r.total_synced, 6);
    assert_eq!(r.message, "\u{2705} Sync complete: 6 events processed, 1 conflicts resolved, 1 duplicates removed");
}

#[test]
fn one_way_sync_without_dedup() {
    let (sources, events) = two_sources();
    let r = run_sync(&sources, &events, false, false, "source");
    assert!(r.new_events.is_empty());
    assert!(r.duplicates.is_empty());
    assert_eq!(r.conflicts[0].resolution, Some("source".to_string()));
    assert_eq!(r.total_synced, 4);
}

#[test]
fn single_source_has_no_conflicts() {
    let sources = vec![source("s1", "ics")];
    let events = vec![vec![event("u1", "A", "1", "s1", "x"), event("u1", "B", "2", "s1", "y")]];
    let r = run_sync(&sources, &events, true, true, "newest");
    assert!(r.conflicts.is_empty());
    assert!(r.new_events.is_empty());
    assert_eq!(r.total_synced, 2);
}

#[test]
fn conflicts_need_a_difference() {
    let same = vec![event("u1", "A", "1", "s1", "x"), event("u1", "A", "1", "s2", "y")];
    assert!(detect_conflicts(&same).is_empty());
    let differ = vec![event("u1", "A", "1", "s1", "x"), event("u2", "B", "1", "s1", "x"), event("u1", "A", "2", "s2", "y"), event("u1", "C", "3", "s3", "z")];
    let found = detect_conflicts(&differ);
    assert_eq!(found.len(), 1);
    assert_eq!(found[0].target_version.dtstart, "2");
    assert_eq!(found[0].resolution, None);
}

#[test]
fn conflict_strategies() {
    let c = SyncConflict {
        event_uid: "u".to_string(),
        source_version: event("u", "A", "1", "s1", "2024-05-01"),
        target_version: event("u", "B", "1", "s2", "2024-04-30"),
        resolution: None,
    };
    assert_eq!(resolve_conflict(&c, "newest"), "source");
    assert_eq!(resolve_conflict(&c, "source"), "source");
    assert_eq!(resolve_conflict(&c, "target"), "target");
    assert_eq!(resolve_conflict(&c, "manual"), "ask");
    assert!(text_at_or_after("b", "abc"));
    assert!(text_at_or_after("abc", "abc"));
    assert!(!text_at_or_after("ab", "abc"));
}

#[test]
fn flattening_repeats_and_propagation() {
    let (sources, events) = two_sources();
    let flat = all_events(&events);
    assert_eq!(flat.len(), 4);
    assert_eq!(flat[2].summary, "Standup (moved)");
    let rep = repeated_events(&flat);
    assert_eq!(rep.len(), 1);
    assert_eq!(propagate(&sources, &events).len(), 2);
}

#[test]
fn preview_lists_each_source() {
    let sources = vec![source("s1", "ics"), source("s2", "caldav")];
    assert_eq!(
        preview(&sources, &[2, 10]),
        "<div><div class='log-entry'><span class='action'>ics</span> \u{2014} 2 events</div><div class='log-entry'><span class='action'>caldav</span> \u{2014} 10 events</div></div>"
    );
    assert_eq!(preview(&[], &[]), "No sources configured.");
}
