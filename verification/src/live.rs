//! The live transcript of a meeting, and when to ask for suggestions.

use vstd::prelude::*;
use vstd::string::StrSliceExecFns;

use crate::language::{LanguageTracker, TrackerText, AUTO};
use crate::text::{join, joined, keep_last_chars, last_chars, opt_chars, same, texts};
use crate::transcribe::Transcription;

verus! {

/// The time, in milliseconds, after which suggestions are asked for again.
pub const ANALYSIS_INTERVAL_MS: u128 = 20_000;

/// The number of new lines after which suggestions are asked for early.
pub const ANALYSIS_SEGMENT_THRESHOLD: usize = 4;

/// The time, in milliseconds, that always passes between two requests for
/// suggestions.
pub const ANALYSIS_MIN_GAP_MS: u128 = 8_000;

/// How many characters of the transcript are sent as context.
pub const MAX_CONTEXT_CHARS: usize = 4000;

/// The lines of a transcript, the language that was shown last, and the number
/// of lines since suggestions were asked for.
pub struct LiveTranscript {
    pub history: Vec<String>,
    pub last_language: Option<String>,
    pub segments: usize,
}

/// The contents of a `LiveTranscript`.
#[verifier::ext_equal]
pub struct LiveText {
    pub history: Seq<Seq<char>>,
    pub last_language: Option<Seq<char>>,
    pub segments: nat,
}

/// What a transcribed chunk brings.
pub enum Heard {
    /// No text.
    Nothing,
    /// The transcription failed.
    Failed(String),
    /// The text of the line before, once more; it is dropped. The language is
    /// given where it is another than the one shown.
    Repeated { language: Option<String> },
    /// A new line. The language is given where it is another than the one shown.
    Line { language: Option<String>, text: String },
}

impl View for LiveTranscript {
    type V = LiveText;

    open spec fn view(&self) -> LiveText {
        LiveText {
            history: texts(self.history@),
            last_language: opt_chars(self.last_language),
            segments: self.segments as nat,
        }
    }
}

/// The language to show for a chunk: the one that the meeting is taken to be
/// in, or, where the user has set a language, the one that was transcribed.
pub open spec fn language_shown(
    setting: Seq<char>,
    tracker: TrackerText,
    transcribed: Option<Seq<char>>,
) -> Option<Seq<char>> {
    if setting == AUTO@ {
        match tracker.current {
            Some(l) => Some(l.name),
            None => None,
        }
    } else {
        transcribed
    }
}

impl LiveText {
    /// No line is empty or repeats the one before it, and the lines that are
    /// counted are there.
    pub open spec fn wf(self) -> bool {
        &&& self.segments <= self.history.len()
        &&& forall|i: int| 0 <= i < self.history.len() ==> (#[trigger] self.history[i]).len() > 0
        &&& forall|i: int|
            0 < i < self.history.len() ==> #[trigger] self.history[i] != self.history[i - 1]
    }

    /// The language to announce: one that is not shown yet.
    pub open spec fn announced(self, shown: Option<Seq<char>>) -> Option<Seq<char>> {
        if shown is Some && self.last_language != shown {
            shown
        } else {
            None
        }
    }

    /// Whether a text repeats the last line.
    pub open spec fn repeats(self, text: Seq<char>) -> bool {
        self.history.len() > 0 && self.history.last() == text
    }

    /// What a text changes.
    pub open spec fn hearing(self, shown: Option<Seq<char>>, text: Seq<char>) -> Self {
        let language = if shown is Some {
            shown
        } else {
            self.last_language
        };
        if text.len() == 0 {
            self
        } else if self.repeats(text) {
            LiveText { last_language: language, ..self }
        } else {
            LiveText {
                history: self.history.push(text),
                last_language: language,
                segments: self.segments + 1,
            }
        }
    }

    /// Whether suggestions are due: when the interval has passed, or early when
    /// enough lines have come and the shortest gap has passed.
    pub open spec fn due(self, elapsed_ms: int) -> bool {
        ||| elapsed_ms >= ANALYSIS_INTERVAL_MS
        ||| self.segments >= ANALYSIS_SEGMENT_THRESHOLD && elapsed_ms >= ANALYSIS_MIN_GAP_MS
    }
}

/// Recent text as context: the lines, joined, of which the last characters are
/// kept.
pub open spec fn recent(history: Seq<Seq<char>>, max_chars: int) -> Seq<char> {
    last_chars(joined(history, " "@), max_chars)
}

/// Join the lines of a transcript and keep the most recent characters.
pub fn recent_context(history: &Vec<String>, max_chars: usize) -> (r: String)
    ensures
        r@ == recent(texts(history@), max_chars as int),
{
    let all: String = join(history, " ");
    keep_last_chars(all.as_str(), max_chars)
}

impl LiveTranscript {
    /// An empty transcript.
    pub fn new() -> (r: Self)
        ensures
            r@ == (LiveText { history: Seq::empty(), last_language: None, segments: 0 }),
            r@.wf(),
    {
        let r: LiveTranscript = LiveTranscript {
            history: Vec::new(),
            last_language: None,
            segments: 0,
        };
        assert(texts(r.history@) =~= Seq::empty());
        r
    }

    /// Show a language, and return it if it was not shown yet.
    fn announce(&mut self, shown: Option<String>) -> (r: Option<String>)
        ensures
            opt_chars(r) == old(self)@.announced(opt_chars(shown)),
            final(self).history == old(self).history,
            final(self).segments == old(self).segments,
            opt_chars(final(self).last_language) == (if shown is Some {
                opt_chars(shown)
            } else {
                opt_chars(old(self).last_language)
            }),
    {
        match shown {
            Some(name) => {
                let known: bool = match &self.last_language {
                    Some(last) => same(last.as_str(), name.as_str()),
                    None => false,
                };
                if known {
                    None
                } else {
                    self.last_language = Some(name.clone());
                    Some(name)
                }
            },
            None => None,
        }
    }

    /// Take the transcription of a chunk.
    pub fn hear(
        &mut self,
        setting: &str,
        tracker: &LanguageTracker,
        result: Result<Transcription, String>,
    ) -> (r: Heard)
        requires
            old(self)@.wf(),
        ensures
            final(self)@.wf(),
            match result {
                Ok(t) => {
                    let shown = language_shown(setting@, tracker@, opt_chars(t.language));
                    &&& final(self)@ == old(self)@.hearing(shown, t.text@)
                    &&& if t.text@.len() == 0 {
                        r is Nothing
                    } else if old(self)@.repeats(t.text@) {
                        r is Repeated && opt_chars(r->Repeated_language) == old(self)@.announced(
                            shown,
                        )
                    } else {
                        r is Line && opt_chars(r->Line_language) == old(self)@.announced(shown)
                            && r->text@ == t.text@
                    }
                },
                Err(e) => r == Heard::Failed(e) && final(self)@ == old(self)@,
            },
    {
        let t: Transcription = match result {
            Ok(t) => t,
            Err(e) => return Heard::Failed(e),
        };
        if t.text.as_str().unicode_len() == 0 {
            return Heard::Nothing;
        }
        let ghost before = self@;
        let shown: Option<String> = if same(setting, AUTO) {
            match &tracker.current {
                Some(l) => Some(l.name.clone()),
                None => None,
            }
        } else {
            t.language
        };
        let language: Option<String> = self.announce(shown);
        let n: usize = self.history.len();
        let ghost lines = texts(self.history@);
        if n > 0 {
            assert(lines.last() == self.history@[n - 1]@);
            if same(self.history[n - 1].as_str(), t.text.as_str()) {
                return Heard::Repeated { language };
            }
        }
        let text: String = t.text;
        self.history.push(text.clone());
        proof {
            assert(texts(self.history@) =~= lines.push(text@));
            assert(self.history@.len() == self.history.len());
        }
        let grown: usize = self.history.len();
        assert(self.segments < grown);
        self.segments = self.segments + 1;
        Heard::Line { language, text }
    }

    /// Whether to ask for suggestions now, `elapsed_ms` milliseconds after the
    /// last time; if so, the context to send.
    pub fn take_due(&mut self, has_key: bool, elapsed_ms: u128) -> (r: Option<String>)
        requires
            old(self)@.wf(),
        ensures
            final(self)@.wf(),
            match r {
                Some(context) => {
                    &&& has_key && old(self)@.due(elapsed_ms as int)
                    &&& context@ == recent(old(self)@.history, MAX_CONTEXT_CHARS as int)
                    &&& final(self)@ == (LiveText { segments: 0, ..old(self)@ })
                },
                None => {
                    &&& !(has_key && old(self)@.due(elapsed_ms as int))
                    &&& final(self)@ == old(self)@
                },
            },
    {
        if has_key && (elapsed_ms >= ANALYSIS_INTERVAL_MS || (self.segments
            >= ANALYSIS_SEGMENT_THRESHOLD && elapsed_ms >= ANALYSIS_MIN_GAP_MS)) {
            self.segments = 0;
            Some(recent_context(&self.history, MAX_CONTEXT_CHARS))
        } else {
            None
        }
    }
}

/// Whatever is heard, the transcript keeps the lines that it has, and no line
/// repeats the one before it.
pub proof fn law_transcript_only_grows(live: LiveText, shown: Option<Seq<char>>, text: Seq<char>)
    requires
        live.wf(),
    ensures
        live.hearing(shown, text).wf(),
        live.history.is_prefix_of(live.hearing(shown, text).history),
{
    let after = live.hearing(shown, text);
    assert(live.history =~= after.history.subrange(0, live.history.len() as int));
    assert forall|i: int| 0 <= i < after.history.len() implies (#[trigger] after.history[i]).len()
        > 0 by {
        if i < live.history.len() {
            assert(after.history[i] == live.history[i]);
        }
    }
    assert forall|i: int| 0 < i < after.history.len() implies #[trigger] after.history[i]
        != after.history[i - 1] by {
        assert(after.history[i - 1] == live.history[i - 1]);
        if i < live.history.len() {
            assert(after.history[i] == live.history[i]);
        }
    }
}

/// A repeated line adds nothing.
pub proof fn law_repeated_line_is_dropped(live: LiveText, shown: Option<Seq<char>>, text: Seq<char>)
    requires
        text.len() > 0,
    ensures
        live.hearing(shown, text).hearing(shown, text) == live.hearing(shown, text),
{
    let once = live.hearing(shown, text);
    assert(once.history.last() == text);
}

/// Requests for suggestions are never closer together than the shortest gap,
/// and never put off once the interval has passed.
pub proof fn law_suggestion_pace(live: LiveText, elapsed_ms: int)
    ensures
        live.due(elapsed_ms) ==> elapsed_ms >= ANALYSIS_MIN_GAP_MS,
        elapsed_ms >= ANALYSIS_INTERVAL_MS ==> live.due(elapsed_ms),
        live.segments >= ANALYSIS_SEGMENT_THRESHOLD && elapsed_ms >= ANALYSIS_MIN_GAP_MS
            ==> live.due(elapsed_ms),
{
}

/// The context is the end of the joined lines, and no longer than allowed.
pub proof fn law_context_is_recent(history: Seq<Seq<char>>, max_chars: nat)
    ensures
        recent(history, max_chars as int).len() <= max_chars,
        recent(history, max_chars as int).is_suffix_of(joined(history, " "@)),
{
    let all = joined(history, " "@);
    let kept = recent(history, max_chars as int);
    assert(kept =~= all.subrange(all.len() - kept.len(), all.len() as int));
}

/// What becomes of a reply to a request for suggestions.
pub enum Suggested {
    /// A batch of questions to keep and show.
    Batch(Vec<String>),
    /// No question.
    Nothing,
    /// The request failed.
    Failed(String),
}

/// Sort out a reply to a request for suggestions: an empty batch is dropped.
pub fn take_suggestions(reply: Result<Vec<String>, String>) -> (r: Suggested)
    ensures
        r == (match reply {
            Ok(questions) => if questions@.len() == 0 {
                Suggested::Nothing
            } else {
                Suggested::Batch(questions)
            },
            Err(e) => Suggested::Failed(e),
        }),
{
    match reply {
        Ok(questions) => {
            if questions.len() == 0 {
                Suggested::Nothing
            } else {
                Suggested::Batch(questions)
            }
        },
        Err(e) => Suggested::Failed(e),
    }
}

/// No line is lost: a text that is not empty, and is not word for word the line
/// before it, becomes the next line, whole, and counts towards suggestions.
pub proof fn law_no_new_line_is_lost(live: LiveText, shown: Option<Seq<char>>, text: Seq<char>)
    requires
        text.len() > 0,
        live.history.len() > 0 ==> live.history.last() != text,
    ensures
        live.hearing(shown, text).history == live.history.push(text),
        live.hearing(shown, text).segments == live.segments + 1,
        !live.repeats(text),
{
}

/// Silence changes nothing, and the line before once more neither adds a line
/// nor counts.
pub proof fn law_only_new_lines_count(live: LiveText, shown: Option<Seq<char>>, text: Seq<char>)
    ensures
        live.hearing(shown, Seq::empty()) == live,
        live.history.len() > 0 && live.history.last() == text ==> {
            &&& live.hearing(shown, text).history == live.history
            &&& live.hearing(shown, text).segments == live.segments
            &&& live.repeats(text)
        },
{
}

/// A language is announced when it is heard first, and when it is heard after
/// another one; where none is heard the last one stays.
pub proof fn law_each_change_of_language_is_announced(
    live: LiveText,
    language: Seq<char>,
    text: Seq<char>,
    next: Option<Seq<char>>,
)
    requires
        text.len() > 0,
    ensures
        live.announced(None) is None,
        live.announced(Some(language)) is None <==> live.last_language == Some(language),
        live.announced(Some(language)) is Some ==> live.announced(Some(language)) == Some(language),
        live.hearing(Some(language), text).last_language == Some(language),
        live.hearing(Some(language), text).announced(next) is Some <==> next is Some
            && next->0 != language,
        live.hearing(None, text).last_language == live.last_language,
{
}

/// With a language that the user has set, what was transcribed is shown; without
/// one, the name of the language that the meeting is taken to be in.
pub proof fn law_the_language_of_the_meeting_is_shown(
    setting: Seq<char>,
    tracker: TrackerText,
    transcribed: Option<Seq<char>>,
)
    ensures
        setting != "auto"@ ==> language_shown(setting, tracker, transcribed) == transcribed,
        tracker.current is Some ==> language_shown("auto"@, tracker, transcribed) == Some(
            tracker.current->0.name,
        ),
        tracker.current is None ==> language_shown("auto"@, tracker, transcribed) is None,
{
}

/// Suggestions are asked for after twenty seconds in any case, after eight where
/// four lines or more have come, and never sooner.
pub proof fn law_when_suggestions_are_due(live: LiveText, elapsed_ms: int)
    ensures
        elapsed_ms < 8_000 ==> !live.due(elapsed_ms),
        8_000 <= elapsed_ms < 20_000 ==> (live.due(elapsed_ms) <==> live.segments >= 4),
        20_000 <= elapsed_ms ==> live.due(elapsed_ms),
{
}

/// The context is all that was said where that is short enough, and else as
/// much of its end as is allowed: the last line is in it, unless that line
/// alone is too long.
pub proof fn law_context_keeps_the_end(front: Seq<Seq<char>>, line: Seq<char>, max_chars: nat)
    ensures
        ({
            let all = joined(front.push(line), " "@);
            let kept = recent(front.push(line), max_chars as int);
            &&& all.len() <= max_chars ==> kept == all
            &&& all.len() > max_chars ==> kept.len() == max_chars && kept.is_suffix_of(all)
            &&& front.len() == 0 ==> all == line
            &&& front.len() > 0 ==> all == joined(front, " "@) + " "@ + line
            &&& line.len() <= max_chars ==> line.is_suffix_of(kept)
        }),
{
    let lines = front.push(line);
    assert(lines.drop_last() =~= front);
    let all = joined(lines, " "@);
    let kept = recent(lines, max_chars as int);
    assert(kept =~= all.subrange(all.len() - kept.len(), all.len() as int));
    if line.len() <= max_chars {
        assert(line =~= kept.subrange(kept.len() - line.len(), kept.len() as int));
    }
}

/// Four thousand characters of context are sent.
pub proof fn law_context_is_bounded(history: Seq<Seq<char>>)
    ensures
        joined(history, " "@).len() <= 4_000 ==> recent(history, MAX_CONTEXT_CHARS as int)
            == joined(history, " "@),
        joined(history, " "@).len() >= 4_000 ==> recent(history, MAX_CONTEXT_CHARS as int).len()
            == 4_000,
{
    law_context_is_recent(history, MAX_CONTEXT_CHARS as nat);
}

} // verus!
