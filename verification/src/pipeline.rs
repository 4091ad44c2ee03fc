//! The recording of a meeting: audio comes in blocks, is cut into chunks,
//! recorded, and, where it holds speech, transcribed.

use vstd::prelude::*;

use crate::chunker::{chunk_cut, pending_after, pending_of, Block, Chunker, Limits};
use crate::language::{
    in_order, span_texts, Detection, LanguageTracker, Timeline, TrackerText, AUTO,
};
use crate::live::{
    language_shown, recent, Heard, LiveText, LiveTranscript, MAX_CONTEXT_CHARS,
};
use crate::syscap;
use crate::text::{opt_chars, same};
use crate::transcribe::Transcription;

verus! {

/// The sample rate at which audio is recorded and transcribed.
pub const TARGET_RATE: u32 = 16_000;

/// What is shown where no key is set.
pub const NO_KEY_NOTICE: &'static str =
    "No Gemini API key — question suggestions are off. Add one in Settings.";

/// Where the audio of a recording comes from.
#[derive(Clone, Copy)]
pub enum CaptureSource {
    /// The microphone.
    Mic,
    /// What other applications play.
    System,
    /// Both, mixed.
    Both,
}

/// The source that a setting names; any other word stands for the microphone.
pub open spec fn source_named(word: Seq<char>) -> CaptureSource {
    if word == "system"@ {
        CaptureSource::System
    } else if word == "both"@ {
        CaptureSource::Both
    } else {
        CaptureSource::Mic
    }
}

/// Read the setting of the audio source.
pub fn capture_source(setting: &str) -> (r: CaptureSource)
    ensures
        r == source_named(setting@),
{
    if same(setting, "system") {
        CaptureSource::System
    } else if same(setting, "both") {
        CaptureSource::Both
    } else {
        CaptureSource::Mic
    }
}

/// The sample rate of a source. Only the microphone has one of its own: system
/// audio has a fixed rate, and a mix is made at the rate that is recorded.
pub fn native_rate(source: CaptureSource, mic_rate: u32) -> (r: u32)
    ensures
        r == (match source {
            CaptureSource::Mic => mic_rate,
            CaptureSource::System => syscap::SAMPLE_RATE,
            CaptureSource::Both => TARGET_RATE,
        }),
{
    match source {
        CaptureSource::Mic => mic_rate,
        CaptureSource::System => syscap::SAMPLE_RATE,
        CaptureSource::Both => TARGET_RATE,
    }
}

/// What is to be done with a chunk once it is recorded.
#[derive(Clone, Copy)]
pub enum ChunkWork {
    /// Nothing: it holds no speech.
    Skip,
    /// Detect its language, and transcribe it.
    Detect,
    /// Transcribe it in the language that the user has set.
    Transcribe,
}

/// What is to be done with a chunk.
pub fn chunk_work(speech: bool, setting: &str) -> (r: ChunkWork)
    ensures
        r == (if !speech {
            ChunkWork::Skip
        } else if setting@ == AUTO@ {
            ChunkWork::Detect
        } else {
            ChunkWork::Transcribe
        }),
{
    if !speech {
        ChunkWork::Skip
    } else if same(setting, AUTO) {
        ChunkWork::Detect
    } else {
        ChunkWork::Transcribe
    }
}

/// The state of a recording.
pub struct Pipeline<T> {
    pub chunker: Chunker<T>,
    pub tracker: LanguageTracker,
    pub timeline: Timeline,
    pub live: LiveTranscript,
    /// Where the last recorded chunk starts.
    pub chunk_start: usize,
}

/// What a recording leaves for the final transcription.
pub struct PipelineOutcome {
    /// The language that was settled on, if any.
    pub established: Option<String>,
    /// From which sample on which language was spoken.
    pub language_spans: Vec<(usize, String)>,
}

impl PipelineOutcome {
    /// What is left of a recording that failed.
    pub fn nothing() -> (r: Self)
        ensures
            r.established is None,
            r.language_spans@ == Seq::<(usize, String)>::empty(),
            in_order(span_texts(r.language_spans@)),
    {
        PipelineOutcome { established: None, language_spans: Vec::new() }
    }
}

impl<T> Pipeline<T> {
    /// All parts are sound, and the last chunk starts in the recording, and
    /// after the spans that were noted.
    pub open spec fn wf(&self) -> bool {
        &&& self.chunker.wf()
        &&& self.tracker@.wf()
        &&& self.timeline.wf()
        &&& self.live@.wf()
        &&& self.chunk_start <= self.timeline.written
        &&& forall|i: int|
            0 <= i < self.timeline.spans@.len() ==> (#[trigger] self.timeline.spans@[i]).0
                <= self.chunk_start
    }

    /// A recording that starts behind the given number of samples, which were
    /// recorded before.
    pub fn new(limits: Limits, recorded: usize) -> (r: Self)
        ensures
            r.wf(),
            r.chunker.limits == limits,
            r.chunker@ == pending_of::<T>(limits, Seq::empty()),
            r.tracker@ == TrackerText::unknown(),
            r.timeline.written == recorded,
            r.chunk_start == recorded,
            span_texts(r.timeline.spans@) == Seq::<(nat, Seq<char>)>::empty(),
            r.live@ == (LiveText { history: Seq::empty(), last_language: None, segments: 0 }),
    {
        let timeline: Timeline = Timeline::new(recorded);
        proof {
            assert(span_texts(timeline.spans@).len() == timeline.spans@.len());
        }
        Pipeline {
            chunker: Chunker::new(limits),
            tracker: LanguageTracker::new(),
            timeline,
            live: LiveTranscript::new(),
            chunk_start: recorded,
        }
    }

    /// Take a block of audio, and return the chunk that it completes, if any.
    pub fn take_block(&mut self, block: Vec<T>, quiet: bool) -> (r: Option<Vec<T>>)
        requires
            old(self).wf(),
        ensures
            final(self).wf(),
            final(self).chunker.limits == old(self).chunker.limits,
            final(self).chunker@ == pending_after(
                old(self).chunker.limits,
                old(self).chunker@,
                (Block { samples: block@, quiet }),
            ),
            match r {
                Some(chunk) => chunk_cut(
                    old(self).chunker.limits,
                    old(self).chunker@,
                    (Block { samples: block@, quiet }),
                ) == Some(chunk@),
                None => chunk_cut(
                    old(self).chunker.limits,
                    old(self).chunker@,
                    (Block { samples: block@, quiet }),
                ) is None,
            },
            final(self).tracker == old(self).tracker,
            final(self).timeline == old(self).timeline,
            final(self).live == old(self).live,
            final(self).chunk_start == old(self).chunk_start,
    {
        self.chunker.push(block, quiet)
    }

    /// The end of the audio: what has not been cut yet, unless that is nothing.
    pub fn flush(&mut self) -> (r: Option<Vec<T>>)
        requires
            old(self).wf(),
        ensures
            final(self).wf(),
            final(self).chunker.limits == old(self).chunker.limits,
            final(self).chunker@.buffer == Seq::<T>::empty(),
            match r {
                Some(chunk) => chunk@ == old(self).chunker@.buffer && chunk@.len() > 0,
                None => old(self).chunker@.buffer.len() == 0,
            },
            final(self).tracker == old(self).tracker,
            final(self).timeline == old(self).timeline,
            final(self).live == old(self).live,
            final(self).chunk_start == old(self).chunk_start,
    {
        self.chunker.flush()
    }

    /// Take account of a chunk that is recorded with the given number of
    /// samples.
    pub fn record(&mut self, samples: usize)
        requires
            old(self).wf(),
            old(self).timeline.written + samples <= usize::MAX,
        ensures
            final(self).wf(),
            final(self).chunk_start == old(self).timeline.written,
            final(self).timeline.written == old(self).timeline.written + samples,
            final(self).timeline.spans == old(self).timeline.spans,
            final(self).chunker == old(self).chunker,
            final(self).tracker == old(self).tracker,
            final(self).live == old(self).live,
    {
        self.chunk_start = self.timeline.record(samples);
    }

    /// Settle the language of the recorded chunk, note it, and return it.
    pub fn settle_language(&mut self, setting: &str, detection: Option<Detection>) -> (r: String)
        requires
            old(self).wf(),
        ensures
            final(self).wf(),
            final(self).tracker@ == old(self).tracker@.after_chunk(setting@, detection),
            r@ == final(self).tracker@.choice(setting@),
            span_texts(final(self).timeline.spans@) == span_texts(
                old(self).timeline.spans@,
            ).push((old(self).chunk_start as nat, r@)),
            final(self).timeline.written == old(self).timeline.written,
            final(self).chunker == old(self).chunker,
            final(self).live == old(self).live,
            final(self).chunk_start == old(self).chunk_start,
    {
        let language: String = self.tracker.language_for(setting, detection);
        let ghost before = self.timeline.spans@;
        self.timeline.mark(self.chunk_start, language.as_str());
        proof {
            let spans = self.timeline.spans@;
            let noted = span_texts(spans);
            assert(noted.len() == spans.len() && span_texts(before).len() == before.len());
            assert forall|i: int| 0 <= i < spans.len() implies (#[trigger] spans[i]).0
                <= self.chunk_start by {
                assert(noted[i].0 == spans[i].0 as nat);
                if i < before.len() {
                    assert(span_texts(before)[i].0 == before[i].0 as nat);
                    assert(noted[i] == span_texts(before)[i]);
                }
            }
        }
        language
    }

    /// Take the transcription of the recorded chunk.
    pub fn take_text(&mut self, setting: &str, result: Result<Transcription, String>) -> (r: Heard)
        requires
            old(self).wf(),
        ensures
            final(self).wf(),
            match result {
                Ok(t) => {
                    let shown = language_shown(
                        setting@,
                        old(self).tracker@,
                        opt_chars(t.language),
                    );
                    &&& final(self).live@ == old(self).live@.hearing(shown, t.text@)
                    &&& if t.text@.len() == 0 {
                        r is Nothing
                    } else if old(self).live@.repeats(t.text@) {
                        r is Repeated && opt_chars(r->Repeated_language)
                            == old(self).live@.announced(shown)
                    } else {
                        r is Line && opt_chars(r->Line_language) == old(self).live@.announced(shown)
                            && r->text@ == t.text@
                    }
                },
                Err(e) => r == Heard::Failed(e) && final(self).live@ == old(self).live@,
            },
            final(self).chunker == old(self).chunker,
            final(self).tracker == old(self).tracker,
            final(self).timeline == old(self).timeline,
            final(self).chunk_start == old(self).chunk_start,
    {
        self.live.hear(setting, &self.tracker, result)
    }

    /// Whether to ask for suggestions after a new line, `elapsed_ms` milliseconds
    /// after the last time; if so, the context to send.
    pub fn take_due(&mut self, has_key: bool, elapsed_ms: u128) -> (r: Option<String>)
        requires
            old(self).wf(),
        ensures
            final(self).wf(),
            match r {
                Some(context) => {
                    &&& has_key && old(self).live@.due(elapsed_ms as int)
                    &&& context@ == recent(old(self).live@.history, MAX_CONTEXT_CHARS as int)
                    &&& final(self).live@ == (LiveText { segments: 0, ..old(self).live@ })
                },
                None => {
                    &&& !(has_key && old(self).live@.due(elapsed_ms as int))
                    &&& final(self).live@ == old(self).live@
                },
            },
            final(self).chunker == old(self).chunker,
            final(self).tracker == old(self).tracker,
            final(self).timeline == old(self).timeline,
            final(self).chunk_start == old(self).chunk_start,
    {
        self.live.take_due(has_key, elapsed_ms)
    }

    /// The end of the recording. The spans that it leaves stand in order.
    pub fn finish(self) -> (r: PipelineOutcome)
        requires
            self.wf(),
        ensures
            opt_chars(r.established) == self.tracker@.code(),
            r.language_spans == self.timeline.spans,
            in_order(span_texts(r.language_spans@)),
    {
        let established: Option<String> = match self.tracker.current {
            Some(l) => Some(l.code),
            None => None,
        };
        PipelineOutcome { established, language_spans: self.timeline.spans }
    }
}

/// Two words name another source than the microphone.
pub proof fn law_two_words_name_a_source(word: Seq<char>)
    ensures
        source_named(word) is System <==> word == "system"@,
        source_named(word) is Both <==> word == "both"@,
        source_named(word) is Mic <==> word != "system"@ && word != "both"@,
{
    reveal_strlit("system");
    reveal_strlit("both");
    assert("system"@.len() != "both"@.len());
}

} // verus!
