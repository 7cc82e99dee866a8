use vstd::prelude::*;

use crate::fuzzy::{chars_of, contains_run, is_substring, lower_of, lowercase};

verus! {

/// What `str::to_uppercase` makes of a string.
pub uninterp spec fn upper_of(s: Seq<char>) -> Seq<char>;

/// Relies on `str::to_uppercase`: the upper-case form depends on the characters alone.
#[verifier::external_body]
fn uppercase(s: &str) -> (r: String)
    ensures
        r@ == upper_of(s@),
{
    s.to_uppercase()
}

/// A key that can start and stop recording.
#[derive(Clone, Copy, Debug, PartialEq, Eq)]
pub enum HotKey {
    F1,
    F2,
    F3,
    F4,
    F5,
    F6,
    F7,
    F8,
    F9,
    F10,
    F11,
    F12,
    Space,
    LControl,
    RControl,
    LShift,
    RShift,
    LAlt,
    RAlt,
}

/// The key that an upper-case key name denotes.
pub open spec fn hotkey_named(s: Seq<char>) -> Option<HotKey> {
    if s == "F1"@ {
        Some(HotKey::F1)
    } else if s == "F2"@ {
        Some(HotKey::F2)
    } else if s == "F3"@ {
        Some(HotKey::F3)
    } else if s == "F4"@ {
        Some(HotKey::F4)
    } else if s == "F5"@ {
        Some(HotKey::F5)
    } else if s == "F6"@ {
        Some(HotKey::F6)
    } else if s == "F7"@ {
        Some(HotKey::F7)
    } else if s == "F8"@ {
        Some(HotKey::F8)
    } else if s == "F9"@ {
        Some(HotKey::F9)
    } else if s == "F10"@ {
        Some(HotKey::F10)
    } else if s == "F11"@ {
        Some(HotKey::F11)
    } else if s == "F12"@ {
        Some(HotKey::F12)
    } else if s == "SPACE"@ {
        Some(HotKey::Space)
    } else if s == "LCTRL"@ {
        Some(HotKey::LControl)
    } else if s == "RCTRL"@ {
        Some(HotKey::RControl)
    } else if s == "LSHIFT"@ {
        Some(HotKey::LShift)
    } else if s == "RSHIFT"@ {
        Some(HotKey::RShift)
    } else if s == "LALT"@ {
        Some(HotKey::LAlt)
    } else if s == "RALT"@ {
        Some(HotKey::RAlt)
    } else {
        None
    }
}

fn same_text(a: &Vec<char>, b: &str) -> (r: bool)
    ensures
        r == (a@ == b@),
{
    let cb = chars_of(b);
    if a.len() != cb.len() {
        return false;
    }
    let mut i: usize = 0;
    while i < a.len() && a[i] == cb[i]
        invariant
            a@.len() == cb@.len(),
            i <= a@.len(),
            forall|q: int| 0 <= q < i ==> a@[q] == cb@[q],
        decreases a@.len() - i,
    {
        i = i + 1;
    }
    if i == a.len() {
        assert(a@ =~= cb@);
        true
    } else {
        false
    }
}

/// The key that the upper-case key name `name` denotes, if any.
pub fn hotkey_from_name(name: &str) -> (r: Option<HotKey>)
    ensures
        r == hotkey_named(name@),
{
    let n = chars_of(name);
    if same_text(&n, "F1") {
        Some(HotKey::F1)
    } else if same_text(&n, "F2") {
        Some(HotKey::F2)
    } else if same_text(&n, "F3") {
        Some(HotKey::F3)
    } else if same_text(&n, "F4") {
        Some(HotKey::F4)
    } else if same_text(&n, "F5") {
        Some(HotKey::F5)
    } else if same_text(&n, "F6") {
        Some(HotKey::F6)
    } else if same_text(&n, "F7") {
        Some(HotKey::F7)
    } else if same_text(&n, "F8") {
        Some(HotKey::F8)
    } else if same_text(&n, "F9") {
        Some(HotKey::F9)
    } else if same_text(&n, "F10") {
        Some(HotKey::F10)
    } else if same_text(&n, "F11") {
        Some(HotKey::F11)
    } else if same_text(&n, "F12") {
        Some(HotKey::F12)
    } else if same_text(&n, "SPACE") {
        Some(HotKey::Space)
    } else if same_text(&n, "LCTRL") {
        Some(HotKey::LControl)
    } else if same_text(&n, "RCTRL") {
        Some(HotKey::RControl)
    } else if same_text(&n, "LSHIFT") {
        Some(HotKey::LShift)
    } else if same_text(&n, "RSHIFT") {
        Some(HotKey::RShift)
    } else if same_text(&n, "LALT") {
        Some(HotKey::LAlt)
    } else if same_text(&n, "RALT") {
        Some(HotKey::RAlt)
    } else {
        None
    }
}

/// The key that `key` names, ignoring case.
pub fn string_to_keycode(key: &str) -> (r: Option<HotKey>)
    ensures
        r == hotkey_named(upper_of(key@)),
{
    let upper = uppercase(key);
    hotkey_from_name(upper.as_str())
}

/// The first of `phrases` that occurs in `text`, all as given.
pub fn first_phrase_in(text: &str, phrases: &Vec<String>) -> (r: Option<usize>)
    ensures
        r is None <==> forall|i: int| 0 <= i < phrases@.len() ==> !is_substring(#[trigger] phrases@[i]@, text@),
        r matches Some(i) ==> i < phrases@.len() && is_substring(phrases@[i as int]@, text@)
            && forall|j: int| 0 <= j < i ==> !is_substring(#[trigger] phrases@[j]@, text@),
{
    let t = chars_of(text);
    let mut i: usize = 0;
    while i < phrases.len()
        invariant
            t@ == text@,
            i <= phrases@.len(),
            forall|j: int| 0 <= j < i ==> !is_substring(#[trigger] phrases@[j]@, text@),
        decreases phrases@.len() - i,
    {
        let p = chars_of(phrases[i].as_str());
        if contains_run(&t, &p) {
            return Some(i);
        }
        i = i + 1;
    }
    None
}

/// The first shortcut whose phrase occurs in `text`, ignoring case.
pub fn find_shortcut(text: &str, shortcuts: &Vec<(String, String)>) -> (r: Option<usize>)
    ensures
        r is None <==> forall|i: int|
            0 <= i < shortcuts@.len() ==> !is_substring(lower_of(#[trigger] shortcuts@[i].0@), lower_of(text@)),
        r matches Some(i) ==> i < shortcuts@.len() && is_substring(lower_of(shortcuts@[i as int].0@), lower_of(text@))
            && forall|j: int| 0 <= j < i ==> !is_substring(lower_of(#[trigger] shortcuts@[j].0@), lower_of(text@)),
{
    let lowered = lowercase(text);
    let mut phrases: Vec<String> = Vec::new();
    let mut i: usize = 0;
    while i < shortcuts.len()
        invariant
            i <= shortcuts@.len(),
            phrases@.len() == i,
            forall|j: int| 0 <= j < i ==> (#[trigger] phrases@[j])@ == lower_of(shortcuts@[j].0@),
        decreases shortcuts@.len() - i,
    {
        phrases.push(lowercase(shortcuts[i].0.as_str()));
        i = i + 1;
    }
    let r = first_phrase_in(lowered.as_str(), &phrases);
    proof {
        if r is None {
            assert forall|i: int| 0 <= i < shortcuts@.len() implies !is_substring(
                lower_of(#[trigger] shortcuts@[i].0@),
                lower_of(text@),
            ) by {
                assert(!is_substring(phrases@[i]@, lowered@));
            }
        } else {
            let k = r->0 as int;
            assert forall|j: int| 0 <= j < k implies !is_substring(
                lower_of(#[trigger] shortcuts@[j].0@),
                lower_of(text@),
            ) by {
                assert(!is_substring(phrases@[j]@, lowered@));
            }
        }
    }
    r
}

} // verus!
