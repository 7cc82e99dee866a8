use voice_assistant::history::{CommandEntry, CommandHistory, Timestamp};

fn stamp(hour: u32) -> Timestamp {
    Timestamp {
        year: 2024,
        month: 5,
        day: 6,
        hour,
        minute: 0,
        second: 0,
        nanosecond: 0,
        weekday: 0,
        utc_offset_seconds: 0,
    }
}

fn numbered(i: u64, label: Option<&str>, success: bool, duration_ms: u64) -> CommandEntry {
    CommandEntry {
        timestamp: stamp((i % 24) as u32),
        transcription: format!("utterance {}", i),
        command_matched: label.map(|l| l.to_string()),
        command_executed: label.map(|l| format!("run {}", l)),
        success,
        duration_ms,
    }
}

#[test]
fn empty_history_statistics() {
    let h = CommandHistory::new();
    let s = h.get_statistics();
    assert_eq!(s.total_commands, 0);
    assert_eq!(s.successful_commands, 0);
    assert_eq!(s.failed_commands, 0);
    assert_eq!(s.avg_duration_ms, 0);
    assert!(s.command_usage.is_empty());
}

#[test]
fn capacity_keeps_latest_thousand() {
    let mut h = CommandHistory::new();
    for i in 0..1200u64 {
        h.add_entry(numbered(i, None, true, i));
        assert!(h.get_all_entries().len() <= 1000);
    }
    let all = h.get_all_entries();
    assert_eq!(all.len(), 1000);
    assert_eq!(all[0], numbered(200, None, true, 200));
    assert_eq!(all[999], numbered(1199, None, true, 1199));
}

#[test]
fn recent_entries_newest_first() {
    let mut h = CommandHistory::new();
    for i in 0..5u64 {
        h.add_entry(numbered(i, None, false, 1));
    }
    let r = h.get_recent_entries(3);
    assert_eq!(r.len(), 3);
    assert_eq!(r[0].transcription, "utterance 4");
    assert_eq!(r[2].transcription, "utterance 2");
    assert_eq!(h.get_recent_entries(10).len(), 5);
    assert!(h.get_recent_entries(0).is_empty());
}

#[test]
fn statistics_counts_and_usage() {
    let mut h = CommandHistory::new();
    h.add_entry(numbered(0, Some("open terminal"), true, 100));
    h.add_entry(numbered(1, Some("open terminal"), false, 200));
    h.add_entry(numbered(2, None, false, 301));
    h.add_entry(numbered(3, Some("take screenshot"), true, 0));
    let s = h.get_statistics();
    assert_eq!(s.total_commands, 4);
    assert_eq!(s.successful_commands, 2);
    assert_eq!(s.failed_commands, 2);
    assert_eq!(s.successful_commands + s.failed_commands, s.total_commands);
    assert_eq!(s.avg_duration_ms, 150);
    assert_eq!(
        s.command_usage,
        vec![("open terminal".to_string(), 2), ("take screenshot".to_string(), 1)]
    );
}

#[test]
fn average_of_large_durations() {
    let mut h = CommandHistory::new();
    h.add_entry(numbered(0, None, true, u64::MAX));
    h.add_entry(numbered(1, None, true, u64::MAX - 2));
    assert_eq!(h.get_statistics().avg_duration_ms, u64::MAX - 1);
}

#[test]
fn from_entries_checks_and_trims() {
    let mut bad = numbered(0, None, true, 1);
    bad.timestamp.hour = 24;
    assert!(CommandHistory::from_entries(vec![numbered(1, None, true, 1), bad]).is_none());
    let many: Vec<CommandEntry> = (0..1500u64).map(|i| numbered(i, None, true, i)).collect();
    let h = CommandHistory::from_entries(many).unwrap();
    assert_eq!(h.get_all_entries().len(), 1000);
    assert_eq!(h.get_all_entries()[0], numbered(500, None, true, 500));
    let few = vec![numbered(7, Some("a"), true, 3)];
    let h2 = CommandHistory::from_entries(few.clone()).unwrap();
    assert_eq!(h2.get_all_entries(), &few);
}

#[test]
fn top_commands_by_count_then_first_use() {
    let mut h = CommandHistory::new();
    for (i, label) in ["a", "b", "b", "c", "c", "d", "e", "f", "g"].iter().enumerate() {
        h.add_entry(numbered(i as u64, Some(label), true, 1));
    }
    let top = h.get_statistics().top_commands(5);
    let labels: Vec<&str> = top.iter().map(|(l, _)| l.as_str()).collect();
    assert_eq!(labels, vec!["b", "c", "a", "d", "e"]);
    assert_eq!(top[0].1, 2);
    assert_eq!(top[2].1, 1);
}
