use voice_assistant::commands::{find_shortcut, first_phrase_in, hotkey_from_name, string_to_keycode, HotKey};
use voice_assistant::voice::{default_voice_feedback, SpeechRequest, VoiceFeedback};

#[test]
fn key_names_ignore_case() {
    assert_eq!(string_to_keycode("f8"), Some(HotKey::F8));
    assert_eq!(string_to_keycode("Space"), Some(HotKey::Space));
    assert_eq!(string_to_keycode("rctrl"), Some(HotKey::RControl));
    assert_eq!(string_to_keycode("F13"), None);
    assert_eq!(hotkey_from_name("f8"), None);
    assert_eq!(hotkey_from_name("LALT"), Some(HotKey::LAlt));
}

#[test]
fn shortcut_found_in_text() {
    let shortcuts = vec![
        ("open terminal".to_string(), "xterm".to_string()),
        ("Take Screenshot".to_string(), "scrot".to_string()),
    ];
    assert_eq!(find_shortcut("Please take screenshot now", &shortcuts), Some(1));
    assert_eq!(find_shortcut("OPEN TERMINAL", &shortcuts), Some(0));
    assert_eq!(find_shortcut("open the terminal", &shortcuts), None);
    assert_eq!(first_phrase_in("abc", &vec!["x".to_string(), "b".to_string()]), Some(1));
}

#[test]
fn voice_feedback_decisions() {
    let on = VoiceFeedback::new(true, true);
    assert_eq!(
        on.speak_blocking("hi"),
        Some(SpeechRequest::Say { text: "hi".to_string(), wait: true })
    );
    assert_eq!(on.speak("hi"), Some(SpeechRequest::Say { text: "hi".to_string(), wait: false }));
    assert_eq!(on.stop(), Some(SpeechRequest::Halt));
    assert!(on.is_speaking(Some(true)));
    assert!(!on.is_speaking(None));
    let off = VoiceFeedback::new(false, true);
    assert_eq!(off.speak_blocking("hi"), None);
    assert_eq!(off.stop(), None);
    assert!(!off.is_speaking(Some(true)));
    let broken = VoiceFeedback::new(true, false);
    assert_eq!(broken.speak("hi"), None);
    let d = default_voice_feedback();
    assert!(d.enabled && d.announce_recording && d.confirm_commands && d.announce_errors);
}
