use fretscope::note_log::{NoteLog, MAX_LOG_SIZE, PHRASE_GAP_NS};

const MS: u64 = 1_000_000;

#[test]
fn new_log_is_empty() {
    let log: NoteLog<&str> = NoteLog::new();
    assert!(log.is_empty());
    assert_eq!(log.len(), 0);
    assert!(log.entries().is_empty());
}

#[test]
fn first_note_starts_phrase() {
    let mut log = NoteLog::new();
    log.push("E2", 40, 1000 * MS);
    assert_eq!(log.len(), 1);
    assert_eq!(log.entries()[0].event, "E2");
    assert!(log.entries()[0].is_phrase_start);
}

#[test]
fn repeated_note_is_logged_once() {
    let mut log = NoteLog::new();
    log.push("A2", 45, 0);
    log.push("A2 again", 45, 100 * MS);
    log.push("A2 again", 45, 200 * MS);
    assert_eq!(log.len(), 1);
    assert_eq!(log.entries()[0].event, "A2");
}

#[test]
fn phrase_gap_splits_phrases() {
    let mut log = NoteLog::new();
    log.push(1, 40, 0);
    log.push(2, 42, 300 * MS); // within the gap
    log.push(3, 44, 300 * MS + PHRASE_GAP_NS); // exactly the gap: same phrase
    log.push(4, 45, 300 * MS + 2 * PHRASE_GAP_NS + 1); // more than the gap
    let starts: Vec<bool> = log.entries().iter().map(|e| e.is_phrase_start).collect();
    assert_eq!(starts, vec![true, false, false, true]);
}

#[test]
fn held_note_keeps_phrase_going() {
    let mut log = NoteLog::new();
    log.push(1, 40, 0);
    log.push(1, 40, 400 * MS);
    log.push(1, 40, 800 * MS);
    log.push(2, 43, 1200 * MS); // 1.2 s after the first hearing, 0.4 s after the last
    assert_eq!(log.len(), 2);
    assert!(!log.entries()[1].is_phrase_start);
}

#[test]
fn earlier_timestamp_counts_as_no_gap() {
    let mut log = NoteLog::new();
    log.push(1, 40, 10_000 * MS);
    log.push(2, 41, 0);
    assert!(!log.entries()[1].is_phrase_start);
}

#[test]
fn log_keeps_newest_entries() {
    let mut log = NoteLog::new();
    for i in 0..(MAX_LOG_SIZE as u64 + 5) {
        log.push(i, (i % 2) as u8, i * MS);
    }
    assert_eq!(log.len(), MAX_LOG_SIZE);
    assert_eq!(log.entries()[0].event, 5);
    assert_eq!(log.entries()[MAX_LOG_SIZE - 1].event, MAX_LOG_SIZE as u64 + 4);
}

#[test]
fn clear_forgets_everything() {
    let mut log = NoteLog::new();
    log.push(1, 40, 0);
    log.clear();
    assert!(log.is_empty());
    log.push(2, 40, 1); // same note as before the clear: logged again
    assert_eq!(log.len(), 1);
    assert!(log.entries()[0].is_phrase_start);
}

#[test]
fn neighbouring_entries_differ() {
    let mut log = NoteLog::new();
    let notes = [40u8, 40, 41, 41, 41, 40, 42, 42, 40];
    for (i, &n) in notes.iter().enumerate() {
        log.push(n, n, i as u64 * MS);
    }
    let logged: Vec<u8> = log.entries().iter().map(|e| e.event).collect();
    assert_eq!(logged, vec![40, 41, 40, 42, 40]);
    assert!(logged.windows(2).all(|w| w[0] != w[1]));
}

#[test]
fn cleared_log_logs_next_note_as_phrase_start() {
    let mut log = NoteLog::new();
    log.push(1, 40, 0);
    log.push(2, 41, 1);
    log.clear();
    log.push(3, 41, 2);
    assert_eq!(log.len(), 1);
    assert!(log.entries()[0].is_phrase_start);
}
