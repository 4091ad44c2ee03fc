//! Following the language of a meeting while it is recorded.

use vstd::prelude::*;

use crate::text::same;

verus! {

/// The setting that leaves the language to detection.
pub const AUTO: &'static str = "auto";

/// How many chunks in a row a new language has to be heard in before the
/// meeting is taken to have switched to it.
pub const LANG_SWITCH_CHUNKS: usize = 2;

/// A language: its code and its full name.
pub struct Language {
    pub code: String,
    pub name: String,
}

/// The contents of a `Language`.
#[verifier::ext_equal]
pub struct LanguageText {
    pub code: Seq<char>,
    pub name: Seq<char>,
}

impl View for Language {
    type V = LanguageText;

    open spec fn view(&self) -> LanguageText {
        LanguageText { code: self.code@, name: self.name@ }
    }
}

/// A language that was detected in a chunk, and whether the detection is sure
/// enough to count.
pub struct Detection {
    pub language: Language,
    pub confident: bool,
}

/// The language that a meeting is taken to be in, and the language that it may
/// be switching to.
pub struct LanguageTracker {
    pub current: Option<Language>,
    pub pending: Option<String>,
    pub pending_count: usize,
}

/// The contents of a `LanguageTracker`.
#[verifier::ext_equal]
pub struct TrackerText {
    pub current: Option<LanguageText>,
    pub pending: Option<Seq<char>>,
    pub pending_count: nat,
}

/// The contents of an optional language.
pub open spec fn language_text(language: Option<Language>) -> Option<LanguageText> {
    match language {
        Some(l) => Some(l@),
        None => None,
    }
}

impl View for LanguageTracker {
    type V = TrackerText;

    open spec fn view(&self) -> TrackerText {
        TrackerText {
            current: language_text(self.current),
            pending: match self.pending {
                Some(p) => Some(p@),
                None => None,
            },
            pending_count: self.pending_count as nat,
        }
    }
}

impl TrackerText {
    /// Nothing is known of the language.
    pub open spec fn unknown() -> Self {
        TrackerText { current: None, pending: None, pending_count: 0 }
    }

    /// A switch is pending only from a known language to another one, and only
    /// until it has been heard often enough.
    pub open spec fn wf(self) -> bool {
        &&& self.pending_count < LANG_SWITCH_CHUNKS
        &&& self.pending is Some <==> self.pending_count > 0
        &&& self.pending is Some ==> self.current is Some && self.current->0.code
            != self.pending->0
    }

    /// The language, once it is known.
    pub open spec fn code(self) -> Option<Seq<char>> {
        match self.current {
            Some(l) => Some(l.code),
            None => None,
        }
    }

    /// What a sure detection of a language changes: the first one settles the
    /// language, one of the current language ends any pending switch, and one
    /// of another language counts towards a switch.
    pub open spec fn hearing(self, heard: LanguageText) -> Self {
        match self.current {
            None => TrackerText { current: Some(heard), ..self },
            Some(current) => if current.code == heard.code {
                TrackerText { pending: None, pending_count: 0, ..self }
            } else {
                let count = if self.pending == Some(heard.code) {
                    self.pending_count + 1
                } else {
                    1
                };
                if count >= LANG_SWITCH_CHUNKS {
                    TrackerText { current: Some(heard), pending: None, pending_count: 0 }
                } else {
                    TrackerText {
                        current: self.current,
                        pending: Some(heard.code),
                        pending_count: count,
                    }
                }
            },
        }
    }

    /// What a chunk changes. A language that the user has set leaves nothing to
    /// track; otherwise only a sure detection counts.
    pub open spec fn after_chunk(self, setting: Seq<char>, detection: Option<Detection>) -> Self {
        if setting != AUTO@ {
            TrackerText::unknown()
        } else {
            match detection {
                Some(d) => if d.confident {
                    self.hearing(d.language@)
                } else {
                    self
                },
                None => self,
            }
        }
    }

    /// The language in which a chunk is transcribed: the one that the user has
    /// set, or else the current one, or else one to be detected.
    pub open spec fn choice(self, setting: Seq<char>) -> Seq<char> {
        if setting != AUTO@ {
            setting
        } else {
            match self.current {
                Some(l) => l.code,
                None => AUTO@,
            }
        }
    }
}

impl LanguageTracker {
    /// Nothing is known of the language.
    pub fn new() -> (r: Self)
        ensures
            r@ == TrackerText::unknown(),
            r@.wf(),
    {
        LanguageTracker { current: None, pending: None, pending_count: 0 }
    }

    /// Take account of a sure detection.
    pub fn hear(&mut self, heard: Language)
        requires
            old(self)@.wf(),
        ensures
            final(self)@.wf(),
            final(self)@ == old(self)@.hearing(heard@),
    {
        let known: bool = match &self.current {
            None => {
                self.current = Some(heard);
                return ;
            },
            Some(current) => same(current.code.as_str(), heard.code.as_str()),
        };
        if known {
            self.pending = None;
            self.pending_count = 0;
            return ;
        }
        let again: bool = match &self.pending {
            Some(pending) => same(pending.as_str(), heard.code.as_str()),
            None => false,
        };
        let count: usize = if again {
            self.pending_count + 1
        } else {
            1
        };
        if count >= LANG_SWITCH_CHUNKS {
            self.current = Some(heard);
            self.pending = None;
            self.pending_count = 0;
        } else {
            self.pending = Some(heard.code);
            self.pending_count = count;
        }
    }

    /// Take account of a chunk, and return the language to transcribe it in.
    pub fn language_for(&mut self, setting: &str, detection: Option<Detection>) -> (r: String)
        requires
            old(self)@.wf(),
        ensures
            final(self)@.wf(),
            final(self)@ == old(self)@.after_chunk(setting@, detection),
            r@ == final(self)@.choice(setting@),
    {
        if !same(setting, AUTO) {
            self.current = None;
            self.pending = None;
            self.pending_count = 0;
            return setting.to_owned();
        }
        if let Some(d) = detection {
            if d.confident {
                self.hear(d.language);
            }
        }
        match &self.current {
            Some(l) => l.code.clone(),
            None => AUTO.to_owned(),
        }
    }
}

/// The tracker stays well-formed, whatever is heard.
pub proof fn law_tracking_stays_sound(t: TrackerText, heard: LanguageText)
    requires
        t.wf(),
    ensures
        t.hearing(heard).wf(),
        t.hearing(heard).current is Some,
{
}

/// One detection of another language does not flip the language, and leaves no
/// trace once the current language is heard again.
pub proof fn law_one_detection_does_not_switch(
    t: TrackerText,
    other: LanguageText,
    again: LanguageText,
)
    requires
        t.wf(),
        t.current is Some,
        t.pending is None,
        other.code != t.current->0.code,
        again.code == t.current->0.code,
    ensures
        t.hearing(other).current == t.current,
        t.hearing(other).hearing(again) == t,
{
}

/// A language that is heard twice in a row becomes the language.
pub proof fn law_sustained_language_switches(t: TrackerText, heard: LanguageText)
    requires
        t.wf(),
    ensures
        t.hearing(heard).hearing(heard).code() == Some(heard.code),
{
}

/// The language changes only to the language that is heard, and from a known
/// language only if the same one was heard in the chunk before that counted.
pub proof fn law_switch_needs_repetition(t: TrackerText, heard: LanguageText)
    requires
        t.wf(),
    ensures
        t.hearing(heard).code() != t.code() ==> {
            &&& t.hearing(heard).current == Some(heard)
            &&& t.current is None || t.pending == Some(heard.code)
        },
{
}

/// A language that the user has set wins, and what was detected before is
/// forgotten.
pub proof fn law_set_language_wins(
    t: TrackerText,
    setting: Seq<char>,
    detection: Option<Detection>,
)
    requires
        setting != AUTO@,
    ensures
        t.after_chunk(setting, detection).choice(setting) == setting,
        t.after_chunk(setting, detection) == TrackerText::unknown(),
{
}

/// A detection that is not sure changes nothing.
pub proof fn law_unsure_detections_are_ignored(t: TrackerText, detection: Option<Detection>)
    requires
        detection is Some ==> !detection->0.confident,
    ensures
        t.after_chunk(AUTO@, detection) == t,
{
}

/// The contents of a list of spans: where each starts, and its language.
pub open spec fn span_texts(spans: Seq<(usize, String)>) -> Seq<(nat, Seq<char>)> {
    spans.map_values(|s: (usize, String)| (s.0 as nat, s.1@))
}

/// Spans stand in the order of their starts.
pub open spec fn in_order(spans: Seq<(nat, Seq<char>)>) -> bool {
    forall|i: int, j: int|
        0 <= i < j < spans.len() ==> (#[trigger] spans[i]).0 <= (#[trigger] spans[j]).0
}

/// How much audio has been recorded, and from which sample on which language
/// was spoken.
pub struct Timeline {
    pub written: usize,
    pub spans: Vec<(usize, String)>,
}

impl Timeline {
    /// The spans stand in order, and each starts in the recording.
    pub open spec fn wf(&self) -> bool {
        &&& in_order(span_texts(self.spans@))
        &&& forall|i: int|
            0 <= i < self.spans@.len() ==> (#[trigger] self.spans@[i]).0 <= self.written
    }

    /// The timeline of a recording that goes on behind the given number of
    /// samples.
    pub fn new(recorded: usize) -> (r: Self)
        ensures
            r.wf(),
            r.written == recorded,
            span_texts(r.spans@) == Seq::<(nat, Seq<char>)>::empty(),
    {
        let r: Timeline = Timeline { written: recorded, spans: Vec::new() };
        assert(span_texts(r.spans@) =~= Seq::<(nat, Seq<char>)>::empty());
        r
    }

    /// Take account of recorded samples, and return where they start.
    pub fn record(&mut self, samples: usize) -> (r: usize)
        requires
            old(self).wf(),
            old(self).written + samples <= usize::MAX,
        ensures
            final(self).wf(),
            final(self).written == old(self).written + samples,
            final(self).spans == old(self).spans,
            r == old(self).written,
    {
        let start: usize = self.written;
        self.written = start + samples;
        start
    }

    /// Note the language of the audio that starts at the given sample.
    pub fn mark(&mut self, start: usize, language: &str)
        requires
            old(self).wf(),
            start <= old(self).written,
            forall|i: int|
                0 <= i < old(self).spans@.len() ==> (#[trigger] old(self).spans@[i]).0 <= start,
        ensures
            final(self).wf(),
            final(self).written == old(self).written,
            span_texts(final(self).spans@) == span_texts(old(self).spans@).push(
                (start as nat, language@),
            ),
    {
        let ghost before = self.spans@;
        self.spans.push((start, language.to_owned()));
        proof {
            let after = span_texts(self.spans@);
            assert(after =~= span_texts(before).push((start as nat, language@)));
            assert forall|i: int, j: int| 0 <= i < j < after.len() implies (#[trigger] after[i]).0
                <= (#[trigger] after[j]).0 by {
                assert(after[i].0 == before[i].0);
                if j < before.len() {
                    assert(span_texts(before)[i].0 <= span_texts(before)[j].0);
                }
            }
        }
    }
}

/// The first language that is heard for sure is the language from then on; to
/// hear it again changes nothing, and ends a switch that was under way.
pub proof fn law_the_language_heard_stays(t: TrackerText, heard: LanguageText)
    requires
        t.wf(),
    ensures
        t.current is None ==> t.hearing(heard) == (TrackerText {
            current: Some(heard),
            pending: None,
            pending_count: 0,
        }),
        t.current is Some && t.current->0.code == heard.code ==> t.hearing(heard) == (TrackerText {
            current: t.current,
            pending: None,
            pending_count: 0,
        }),
{
}

/// A switch takes the same new language twice in a row: a third language starts
/// the count over, and the first of the two has to be heard twice again.
pub proof fn law_an_interrupted_switch_starts_over(
    t: TrackerText,
    a: LanguageText,
    b: LanguageText,
)
    requires
        t.wf(),
        t.current is Some,
        t.pending is None,
        a.code != t.current->0.code,
        b.code != t.current->0.code,
        a.code != b.code,
    ensures
        t.hearing(a).current == t.current,
        t.hearing(a).hearing(b).current == t.current,
        t.hearing(a).hearing(b).hearing(a).current == t.current,
        t.hearing(a).hearing(b).hearing(b).current == Some(b),
        t.hearing(a).hearing(a).current == Some(a),
        t.hearing(a).hearing(a).pending is None,
{
}

/// A sure detection is taken account of where the language is left open, and the
/// chunk is transcribed in the language of the meeting, which is open only as
/// long as nothing was heard for sure.
pub proof fn law_sure_detections_count(t: TrackerText, detection: Detection)
    requires
        t.wf(),
        detection.confident,
    ensures
        t.after_chunk("auto"@, Some(detection)) == t.hearing(detection.language@),
        t.current is None ==> t.after_chunk("auto"@, Some(detection)).choice("auto"@)
            == detection.language@.code,
        t.current is Some ==> t.choice("auto"@) == t.current->0.code,
        t.current is None ==> t.choice("auto"@) == "auto"@,
        t.code() is Some <==> t.current is Some,
        t.current is Some ==> t.code() == Some(t.current->0.code),
{
}

} // verus!
