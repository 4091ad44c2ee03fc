use meetclaw::chunker::{Chunker, Limits};
use meetclaw::final_pass::{join_passes, merge_runs, plan_passes, replaces_live, Pass};
use meetclaw::language::{Detection, Language, LanguageTracker};
use meetclaw::live::{recent_context, take_suggestions, Heard, LiveTranscript, Suggested};
use meetclaw::mixer::{Backlog, BACKLOG_SAMPLES};
use meetclaw::pipeline::{
    capture_source, chunk_work, native_rate, CaptureSource, ChunkWork, Pipeline, PipelineOutcome,
};
use meetclaw::syscap::SampleReader;
use meetclaw::transcribe::{transcription, Transcription};

const LIMITS: Limits = Limits { min: 4, max: 10, hang: 2 };

fn lang(code: &str) -> Language {
    Language { code: code.to_string(), name: format!("{code} name") }
}

fn detection(code: &str, confident: bool) -> Option<Detection> {
    Some(Detection { language: lang(code), confident })
}

fn heard(text: &str, language: Option<&str>) -> Result<Transcription, String> {
    Ok(Transcription { text: text.to_string(), language: language.map(|s| s.to_string()) })
}

fn span(start: usize, code: &str) -> (usize, String) {
    (start, code.to_string())
}

fn passes(plan: Vec<Pass>) -> Vec<(usize, usize, String)> {
    plan.into_iter().map(|p| (p.start, p.end, p.language)).collect()
}

#[test]
fn audio_is_cut_at_pauses() {
    let mut c: Chunker<f32> = Chunker::new(LIMITS);
    assert_eq!(c.push(vec![0.5, 0.6], false), None);
    assert_eq!(c.push(vec![0.0], true), None);
    assert_eq!(c.push(vec![0.7], false), None);
    assert_eq!(c.push(vec![0.0], true), None);
    assert_eq!(c.push(vec![0.0], true), Some(vec![0.5, 0.6, 0.0, 0.7, 0.0, 0.0]));
    assert_eq!(c.flush(), None);
}

#[test]
fn quiet_alone_is_not_cut_too_short() {
    let mut c: Chunker<u8> = Chunker::new(LIMITS);
    assert_eq!(c.push(vec![1, 2, 3], true), None);
    assert_eq!(c.push(vec![4], true), Some(vec![1, 2, 3, 4]));
    assert_eq!(c.push(vec![5, 6, 7], true), None);
    assert_eq!(c.flush(), Some(vec![5, 6, 7]));
    assert_eq!(c.flush(), None);
}

#[test]
fn long_speech_is_cut_without_a_pause() {
    let mut c: Chunker<u8> = Chunker::new(LIMITS);
    assert_eq!(c.push(vec![1; 9], false), None);
    assert_eq!(c.push(vec![2; 3], false), Some(vec![1, 1, 1, 1, 1, 1, 1, 1, 1, 2, 2, 2]));
}

#[test]
fn chunks_hold_all_audio() {
    let mut c: Chunker<usize> = Chunker::new(LIMITS);
    let mut out: Vec<usize> = Vec::new();
    let mut given: Vec<usize> = Vec::new();
    for i in 0..200 {
        let block: Vec<usize> = (0..i % 5).map(|k| 10 * i + k).collect();
        given.extend(&block);
        if let Some(chunk) = c.push(block, i % 3 == 0) {
            assert!(chunk.len() >= 4);
            out.extend(chunk);
        }
        assert!(c.buffer.len() < 10);
    }
    out.extend(c.flush().unwrap_or_default());
    assert_eq!(out, given);
}

#[test]
fn one_misdetection_does_not_flip_the_language() {
    let mut t = LanguageTracker::new();
    assert_eq!(t.language_for("auto", None), "auto");
    assert_eq!(t.language_for("auto", detection("en", false)), "auto");
    assert_eq!(t.language_for("auto", detection("en", true)), "en");
    assert_eq!(t.language_for("auto", detection("fr", true)), "en");
    assert_eq!(t.language_for("auto", detection("en", true)), "en");
    assert_eq!(t.language_for("auto", detection("fr", true)), "en");
    assert_eq!(t.language_for("auto", detection("de", true)), "en");
    assert_eq!(t.language_for("auto", detection("fr", false)), "en");
    assert_eq!(t.language_for("auto", detection("de", true)), "de");
}

#[test]
fn a_sustained_switch_is_followed() {
    let mut t = LanguageTracker::new();
    t.language_for("auto", detection("en", true));
    t.language_for("auto", detection("fr", true));
    assert_eq!(t.language_for("auto", detection("fr", true)), "fr");
    assert_eq!(t.current.as_ref().unwrap().name, "fr name");
    assert_eq!(t.language_for("es", None), "es");
    assert!(t.current.is_none());
    assert_eq!(t.language_for("auto", None), "auto");
}

#[test]
fn spans_are_merged_into_runs() {
    let spans = vec![span(0, "en"), span(10, "en"), span(20, "fr"), span(30, "fr"), span(40, "en")];
    assert_eq!(merge_runs(&spans), vec![span(0, "en"), span(20, "fr"), span(40, "en")]);
    assert_eq!(merge_runs(&vec![]), vec![]);
}

#[test]
fn each_run_is_transcribed_on_its_own() {
    let spans = vec![span(5, "en"), span(20, "fr"), span(40, "en")];
    assert_eq!(
        passes(plan_passes("auto", &spans, None, 50)),
        vec![(0, 20, "en".to_string()), (20, 40, "fr".to_string()), (40, 50, "en".to_string())]
    );
    assert_eq!(
        passes(plan_passes("auto", &spans, None, 30)),
        vec![(0, 20, "en".to_string()), (20, 30, "fr".to_string())]
    );
    let spans = vec![span(0, "auto"), span(0, "fr")];
    assert_eq!(passes(plan_passes("auto", &spans, None, 9)), vec![(0, 9, "fr".to_string())]);
}

#[test]
fn one_language_takes_one_pass() {
    let spans = vec![span(7, "en"), span(20, "en")];
    let one = |l: &str| vec![(0, 50, l.to_string())];
    assert_eq!(passes(plan_passes("auto", &spans, Some("fr".to_string()), 50)), one("en"));
    assert_eq!(passes(plan_passes("auto", &vec![], Some("fr".to_string()), 50)), one("fr"));
    assert_eq!(passes(plan_passes("auto", &vec![], None, 50)), one("auto"));
    assert_eq!(passes(plan_passes("de", &spans, None, 50)), one("de"));
}

#[test]
fn passes_are_joined_by_lines() {
    let results = vec![
        Ok(" one ".to_string()),
        Ok(" \n".to_string()),
        Err("x".to_string()),
        Ok("two".to_string()),
    ];
    assert_eq!(join_passes(&results), "one\ntwo");
    assert_eq!(join_passes(&vec![Err("x".to_string())]), "");
}

#[test]
fn a_collapsed_pass_replaces_nothing() {
    assert!(replaces_live("abc", " 123456789012 \n"));
    assert!(!replaces_live("abc", "1234567890123"));
    assert!(!replaces_live("", ""));
    assert!(replaces_live("a", ""));
    assert!(replaces_live("漢", "123456789012"));
}

#[test]
fn lines_are_not_repeated() {
    let t = LanguageTracker::new();
    let mut live = LiveTranscript::new();
    assert!(matches!(live.hear("en", &t, heard("", Some("english"))), Heard::Nothing));
    assert!(matches!(live.hear("en", &t, heard("hi", Some("english"))),
        Heard::Line { language: Some(l), text } if l == "english" && text == "hi"));
    assert!(matches!(live.hear("en", &t, heard("hi", Some("french"))),
        Heard::Repeated { language: Some(l) } if l == "french"));
    assert!(matches!(live.hear("en", &t, heard("ho", Some("french"))),
        Heard::Line { language: None, text } if text == "ho"));
    assert!(matches!(live.hear("en", &t, heard("hi", None)), Heard::Line { language: None, .. }));
    assert!(matches!(live.hear("en", &t, Err("e".to_string())), Heard::Failed(e) if e == "e"));
    assert_eq!(live.history, vec!["hi", "ho", "hi"]);
    assert_eq!(live.segments, 3);
}

#[test]
fn the_tracked_language_is_shown_in_auto_mode() {
    let mut t = LanguageTracker::new();
    let mut live = LiveTranscript::new();
    assert!(matches!(live.hear("auto", &t, heard("a", Some("english"))),
        Heard::Line { language: None, .. }));
    t.language_for("auto", detection("fr", true));
    assert!(matches!(live.hear("auto", &t, heard("b", Some("english"))),
        Heard::Line { language: Some(l), .. } if l == "fr name"));
}

#[test]
fn suggestions_keep_their_pace() {
    let t = LanguageTracker::new();
    let mut live = LiveTranscript::new();
    live.hear("en", &t, heard("one", None));
    assert_eq!(live.take_due(true, 19_999), None);
    assert_eq!(live.take_due(false, 90_000), None);
    assert_eq!(live.take_due(true, 20_000), Some("one".to_string()));
    for line in ["two", "three", "four", "five"] {
        assert_eq!(live.take_due(true, 8_000), None);
        live.hear("en", &t, heard(line, None));
    }
    assert_eq!(live.take_due(true, 7_999), None);
    assert_eq!(live.take_due(true, 8_000), Some("one two three four five".to_string()));
    assert_eq!(live.segments, 0);
    assert_eq!(live.take_due(true, 8_000), None);
}

#[test]
fn context_is_the_end_of_the_transcript() {
    let history = vec!["ab".to_string(), "äö".to_string()];
    assert_eq!(recent_context(&history, 3), " äö");
    assert_eq!(recent_context(&history, 5), "ab äö");
    assert_eq!(recent_context(&history, 0), "");
}

#[test]
fn empty_batches_are_dropped() {
    assert!(matches!(take_suggestions(Ok(vec![])), Suggested::Nothing));
    assert!(matches!(take_suggestions(Ok(vec!["q".to_string()])), Suggested::Batch(b) if b == ["q"]));
    assert!(matches!(take_suggestions(Err("e".to_string())), Suggested::Failed(e) if e == "e"));
}

#[test]
fn a_recording_goes_through_the_pipeline() {
    let mut p: Pipeline<f32> = Pipeline::new(LIMITS, 100);
    assert_eq!(p.take_block(vec![0.1; 3], false), None);
    let chunk = p.take_block(vec![0.0; 2], true).unwrap();
    p.record(chunk.len());
    assert_eq!(p.settle_language("auto", detection("en", true)), "en");
    assert!(matches!(p.take_text("auto", heard("hello", None)),
        Heard::Line { language: Some(l), .. } if l == "en name"));
    assert_eq!(p.take_due(true, 30_000), Some("hello".to_string()));
    p.record(7);
    p.record(3);
    assert_eq!(p.settle_language("auto", detection("fr", true)), "en");
    assert!(matches!(p.take_text("auto", heard("hello", None)), Heard::Repeated { language: None }));
    p.take_block(vec![0.2], false);
    assert_eq!(p.flush(), Some(vec![0.2]));
    let outcome = p.finish();
    assert_eq!(outcome.established, Some("en".to_string()));
    assert_eq!(outcome.language_spans, vec![span(100, "en"), span(112, "en")]);
    let nothing = PipelineOutcome::nothing();
    assert_eq!(nothing.established, None);
    assert!(nothing.language_spans.is_empty());
}

#[test]
fn sources_have_their_rates() {
    assert_eq!(native_rate(capture_source("system"), 44_100), 48_000);
    assert_eq!(native_rate(capture_source("both"), 44_100), 16_000);
    assert_eq!(native_rate(capture_source("mic"), 44_100), 44_100);
    assert!(matches!(capture_source("anything"), CaptureSource::Mic));
}

#[test]
fn silence_is_not_transcribed() {
    assert!(matches!(chunk_work(false, "auto"), ChunkWork::Skip));
    assert!(matches!(chunk_work(true, "auto"), ChunkWork::Detect));
    assert!(matches!(chunk_work(true, "en"), ChunkWork::Transcribe));
}

#[test]
fn segments_are_put_together() {
    let segments = vec![Some(" Hello ".to_string()), None, Some("there.".to_string())];
    let t = transcription(&segments, Some("english".to_string()));
    assert_eq!(t.text, "Hello there.");
    assert_eq!(t.language, Some("english".to_string()));
    assert_eq!(transcription(&vec![], None).text, "");
}

#[test]
fn samples_are_read_across_reads() {
    let mut r = SampleReader::new();
    let bytes: Vec<u8> = [1.5f32, -0.25, 3.0].iter().flat_map(|f| f.to_le_bytes()).collect();
    assert_eq!(r.push(bytes[..3].to_vec()), None);
    let first = r.push(bytes[3..9].to_vec()).unwrap();
    assert_eq!(first, vec![1.5f32.to_bits(), (-0.25f32).to_bits()]);
    assert_eq!(r.partial, bytes[8..9].to_vec());
    assert_eq!(r.push(bytes[9..].to_vec()), Some(vec![3.0f32.to_bits()]));
    assert_eq!(r.push(vec![]), None);
}

#[test]
fn the_backlog_keeps_the_newest_samples() {
    let mut b: Backlog<u32> = Backlog::new();
    let many: Vec<u32> = (0..BACKLOG_SAMPLES as u32).collect();
    b.add_samples(&many);
    b.add_samples(&vec![7, 8]);
    assert_eq!(b.queue.len(), BACKLOG_SAMPLES);
    assert_eq!(b.take_samples(2), vec![2, 3]);
    let rest = b.take_samples(BACKLOG_SAMPLES);
    assert_eq!(rest.len(), BACKLOG_SAMPLES - 2);
    assert_eq!(rest[rest.len() - 2..], [7, 8]);
    assert!(b.take_samples(1).is_empty());
}
