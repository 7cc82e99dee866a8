use vstd::prelude::*;

verus! {

/// What the speech engine is asked to do.
#[derive(Clone, Debug, PartialEq, Eq)]
pub enum SpeechRequest {
    /// Speak `text`; with `wait`, return only once it has been spoken.
    Say { text: String, wait: bool },
    /// Stop speaking.
    Halt,
}

/// Which spoken announcements are wanted.
#[derive(Clone, Copy, Debug, PartialEq, Eq)]
pub struct VoiceFeedbackSettings {
    pub enabled: bool,
    pub announce_recording: bool,
    pub confirm_commands: bool,
    pub announce_errors: bool,
}

/// Every announcement switched on.
pub fn default_voice_feedback() -> (r: VoiceFeedbackSettings)
    ensures
        r.enabled && r.announce_recording && r.confirm_commands && r.announce_errors,
{
    VoiceFeedbackSettings {
        enabled: true,
        announce_recording: true,
        confirm_commands: true,
        announce_errors: true,
    }
}

/// Spoken feedback: decides which requests reach the speech engine. The engine itself is
/// driven by the caller, who reports whether one could be started.
#[derive(Clone, Copy, Debug)]
pub struct VoiceFeedback {
    enabled: bool,
    engine_ready: bool,
}

impl VoiceFeedback {
    pub closed spec fn is_enabled(&self) -> bool {
        self.enabled
    }

    /// Feedback is on and an engine is there to speak.
    pub closed spec fn active(&self) -> bool {
        self.enabled && self.engine_ready
    }

    /// Feedback as asked for by `enabled`; `engine_ready` tells whether an engine started.
    /// A disabled feedback never uses an engine.
    pub fn new(enabled: bool, engine_ready: bool) -> (r: Self)
        ensures
            r.is_enabled() == enabled,
            r.active() == (enabled && engine_ready),
    {
        VoiceFeedback { enabled, engine_ready: enabled && engine_ready }
    }

    /// The request to speak `text` without waiting, if feedback is active.
    pub fn speak(&self, text: &str) -> (r: Option<SpeechRequest>)
        ensures
            self.active() ==> (r matches Some(SpeechRequest::Say { text: t, wait }) && t@ == text@
                && !wait),
            !self.active() ==> r is None,
    {
        if !self.enabled || !self.engine_ready {
            return None;
        }
        Some(SpeechRequest::Say { text: String::from_str(text), wait: false })
    }

    /// The request to speak `text` and wait until it is spoken, if feedback is active.
    pub fn speak_blocking(&self, text: &str) -> (r: Option<SpeechRequest>)
        ensures
            self.active() ==> (r matches Some(SpeechRequest::Say { text: t, wait }) && t@ == text@
                && wait),
            !self.active() ==> r is None,
    {
        if !self.enabled || !self.engine_ready {
            return None;
        }
        Some(SpeechRequest::Say { text: String::from_str(text), wait: true })
    }

    /// Whether speech is under way, given the engine's own answer (`None` when it gave none).
    pub fn is_speaking(&self, engine_answer: Option<bool>) -> (r: bool)
        ensures
            r == (self.active() && engine_answer == Some(true)),
    {
        if !self.enabled || !self.engine_ready {
            return false;
        }
        match engine_answer {
            Some(b) => b,
            None => false,
        }
    }

    /// The request to stop speaking, if feedback is active.
    pub fn stop(&self) -> (r: Option<SpeechRequest>)
        ensures
            r == (if self.active() { Some(SpeechRequest::Halt) } else { None::<SpeechRequest> }),
    {
        if !self.enabled || !self.engine_ready {
            return None;
        }
        Some(SpeechRequest::Halt)
    }
}

} // verus!
