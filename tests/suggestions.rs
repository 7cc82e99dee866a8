use voice_assistant::history::{CommandEntry, CommandHistory, Timestamp};
use voice_assistant::score::Score;
use voice_assistant::suggestions::{failed_command_messages, SmartSuggestions};
use voice_assistant::temporal::TimePattern;

fn value(s: Score) -> f32 {
    s.num as f32 / s.den as f32
}

fn at(weekday: u32, hour: u32) -> Timestamp {
    Timestamp {
        year: 2024,
        month: 1,
        day: 1 + weekday,
        hour,
        minute: 30,
        second: 0,
        nanosecond: 0,
        weekday,
        utc_offset_seconds: 3600,
    }
}

fn entry(label: Option<&str>, success: bool, weekday: u32, hour: u32) -> CommandEntry {
    CommandEntry {
        timestamp: at(weekday, hour),
        transcription: label.unwrap_or("mumble").to_string(),
        command_matched: label.map(|l| l.to_string()),
        command_executed: None,
        success,
        duration_ms: 100,
    }
}

fn candidates() -> Vec<(String, String)> {
    vec![
        ("open terminal".to_string(), "xterm".to_string()),
        ("take screenshot".to_string(), "scrot".to_string()),
    ]
}

#[test]
fn test_fuzzy_match() {
    let suggestions = SmartSuggestions::new();

    assert_eq!(value(suggestions.fuzzy_match("terminal", "terminal")), 1.0);
    assert!(value(suggestions.fuzzy_match("termnal", "terminal")) > 0.7);
    assert!(value(suggestions.fuzzy_match("open terminal", "terminal")) > 0.5);
    assert!(value(suggestions.fuzzy_match("term", "terminal")) > 0.5);
}

#[test]
fn test_levenshtein_similarity() {
    let suggestions = SmartSuggestions::new();

    assert_eq!(value(suggestions.levenshtein_similarity("", "")), 1.0);
    assert_eq!(value(suggestions.levenshtein_similarity("abc", "abc")), 1.0);
    assert!(value(suggestions.levenshtein_similarity("abc", "abd")) > 0.6);
    assert!(value(suggestions.levenshtein_similarity("kitten", "sitting")) < 0.6);
}

#[test]
fn fuzzy_match_ignores_case() {
    let s = SmartSuggestions::new();
    assert_eq!(s.fuzzy_match("TERMINAL", "terminal"), Score { num: 1, den: 1 });
    assert_eq!(s.fuzzy_match("Open Terminal", "terminal"), Score { num: 4, den: 5 });
}

#[test]
fn fuzzy_match_exact_tiers() {
    let s = SmartSuggestions::new();
    assert_eq!(s.fuzzy_match("", ""), Score { num: 1, den: 1 });
    assert_eq!(s.fuzzy_match("termnal", "terminal"), Score { num: 7, den: 8 });
    assert_eq!(s.fuzzy_match("term", "terminal"), Score { num: 4, den: 5 });
    assert_eq!(s.fuzzy_match("", "abc"), Score { num: 4, den: 5 });
    assert_eq!(s.fuzzy_match("xyz", "abc"), Score { num: 0, den: 3 });
}

#[test]
fn similarity_bounds_on_samples() {
    let s = SmartSuggestions::new();
    let words = ["", "a", "open terminal", "kitten", "sitting", "Ärger", "ärger"];
    for a in words {
        for b in words {
            let r = s.fuzzy_match(a, b);
            assert!(r.den > 0 && r.num <= r.den);
        }
        assert_eq!(value(s.fuzzy_match(a, a)), 1.0);
    }
}

#[test]
fn levenshtein_counts_characters_not_bytes() {
    let s = SmartSuggestions::new();
    assert_eq!(s.levenshtein_similarity("äbc", "abc"), Score { num: 2, den: 3 });
    assert_eq!(s.levenshtein_similarity("kitten", "sitting"), Score { num: 4, den: 7 });
}

#[test]
fn kitten_below_abc() {
    let s = SmartSuggestions::new();
    assert!(value(s.fuzzy_match("kitten", "sitting")) < value(s.fuzzy_match("abc", "abd")));
}

#[test]
fn best_match_open_terminal() {
    let s = SmartSuggestions::new();
    let c = candidates();
    let (phrase, score) = s.find_best_match("open the terminal", &c).unwrap();
    assert_eq!(phrase, "open terminal");
    assert!(value(score) >= 0.7);
    // "open terminal" is not a contiguous part of "open the terminal": edit distance 4 of 17.
    assert_eq!(score, Score { num: 13, den: 17 });
}

#[test]
fn best_match_none_below_threshold() {
    let s = SmartSuggestions::new();
    let c = candidates();
    assert_eq!(s.find_best_match("play some music", &c), None);
    assert_eq!(s.find_best_match("anything", &Vec::new()), None);
}

#[test]
fn best_match_first_of_equal_scores() {
    let s = SmartSuggestions::new();
    let c = vec![
        ("open browser".to_string(), "a".to_string()),
        ("open browsers".to_string(), "b".to_string()),
    ];
    let (phrase, score) = s.find_best_match("browser", &c).unwrap();
    assert_eq!(phrase, "open browser");
    assert_eq!(score, Score { num: 4, den: 5 });
}

#[test]
fn pick_best_prefers_first_highest() {
    let scores = vec![
        Score { num: 1, den: 2 },
        Score { num: 8, den: 10 },
        Score { num: 4, den: 5 },
        Score { num: 3, den: 4 },
    ];
    assert_eq!(SmartSuggestions::pick_best(&scores, &Score { num: 7, den: 10 }), Some(1));
    assert_eq!(SmartSuggestions::pick_best(&scores, &Score { num: 9, den: 10 }), None);
}

#[test]
fn time_pattern_relevance_values() {
    let mut p = TimePattern::new();
    assert_eq!(p.calculate_relevance(14, 0), Score { num: 0, den: 1 });
    p.add_occurrence(14, 0);
    assert_eq!(p.calculate_relevance(14, 0), Score { num: 600, den: 600 });
    assert_eq!(p.calculate_relevance(3, 3), Score { num: 0, den: 600 });
    assert_eq!(p.calculate_hour_relevance(15), Score { num: 30, den: 60 });
    assert_eq!(p.calculate_hour_relevance(16), Score { num: 20, den: 60 });
    assert_eq!(p.calculate_hour_relevance(17), Score { num: 0, den: 60 });
    let mut q = TimePattern::new();
    q.add_occurrence(23, 6);
    assert_eq!(q.calculate_hour_relevance(1), Score { num: 20, den: 60 });
    assert_eq!(q.calculate_hour_relevance(0), Score { num: 30, den: 60 });
}

#[test]
fn monday_afternoon_habit() {
    let mut h = CommandHistory::new();
    for i in 0..30u32 {
        h.add_entry(entry(Some("open terminal"), true, 0, 13 + i % 3));
    }
    let s = SmartSuggestions::new();
    assert_eq!(s.time_based_suggestions_at(&h, 14, 0, 5), vec!["open terminal".to_string()]);
    assert!(s.time_based_suggestions_at(&h, 3, 3, 5).is_empty());
}

#[test]
fn time_suggestions_ranked_and_limited() {
    let mut h = CommandHistory::new();
    h.add_entry(entry(Some("b"), true, 2, 9));
    h.add_entry(entry(Some("a"), true, 2, 10));
    h.add_entry(entry(Some("a"), true, 2, 10));
    h.add_entry(entry(Some("c"), false, 2, 10));
    let s = SmartSuggestions::new();
    assert_eq!(s.time_based_suggestions_at(&h, 10, 2, 5), vec!["a".to_string(), "b".to_string()]);
    assert_eq!(s.time_based_suggestions_at(&h, 10, 2, 1), vec!["a".to_string()]);
    assert!(s.time_based_suggestions_at(&h, 10, 2, 0).is_empty());
}

#[test]
fn time_suggestions_now_on_empty_history() {
    let s = SmartSuggestions::new();
    assert!(s.get_time_based_suggestions(&CommandHistory::new(), 3).is_empty());
}

#[test]
fn frequency_suggestions_order() {
    let mut h = CommandHistory::new();
    h.add_entry(entry(Some("x"), true, 0, 1));
    h.add_entry(entry(Some("y"), false, 0, 1));
    h.add_entry(entry(Some("y"), true, 0, 1));
    h.add_entry(entry(Some("z"), true, 0, 1));
    h.add_entry(entry(Some("z"), true, 0, 1));
    h.add_entry(entry(None, false, 0, 1));
    let s = SmartSuggestions::new();
    assert_eq!(
        s.get_frequency_suggestions(&h, 10),
        vec!["y".to_string(), "z".to_string(), "x".to_string()]
    );
    assert_eq!(s.get_frequency_suggestions(&h, 1), vec!["y".to_string()]);
}

#[test]
fn guidance_lines() {
    let times = vec!["open browser".to_string(), "take screenshot".to_string()];
    let r = failed_command_messages(Some(("open terminal", 80)), &times);
    assert_eq!(
        r,
        vec![
            "Did you mean: open terminal (80% match)?".to_string(),
            "Based on your usage patterns, try: open browser or take screenshot".to_string(),
        ]
    );
    assert_eq!(
        failed_command_messages(None, &vec!["a".to_string()]),
        vec!["Based on your usage patterns, try: a".to_string()]
    );
    assert!(failed_command_messages(None, &Vec::new()).is_empty());
    assert_eq!(
        failed_command_messages(Some(("x", 100)), &Vec::new()),
        vec!["Did you mean: x (100% match)?".to_string()]
    );
    assert_eq!(
        failed_command_messages(Some(("x", 7)), &Vec::new()),
        vec!["Did you mean: x (7% match)?".to_string()]
    );
}

#[test]
fn failed_command_guidance() {
    let s = SmartSuggestions::new();
    let h = CommandHistory::new();
    let c = candidates();
    assert_eq!(
        s.get_suggestions_for_failed_command("open the terminal", &h, &c),
        vec!["Did you mean: open terminal (76% match)?".to_string()]
    );
    assert!(s.get_suggestions_for_failed_command("play music", &h, &c).is_empty());
}

#[test]
fn percent_rounds_down() {
    assert_eq!(Score { num: 7, den: 8 }.percent(), 87);
    assert_eq!(Score { num: 4, den: 5 }.percent(), 80);
}
