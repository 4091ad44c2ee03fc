//! The final transcription of a recording, after it has stopped: which part is
//! transcribed in which language, and what becomes of the results.

use vstd::prelude::*;
use vstd::string::StrSliceExecFns;
use vstd::utf8::encode_utf8;

use crate::language::{in_order, span_texts, AUTO};
use crate::text::{
    blank, byte_count, byte_len, is_blank, join, joined, lemma_blank_trimmed, opt_chars, same,
    texts, trim, trimmed,
};

verus! {

/// A part of the recording, and the language to transcribe it in.
pub struct Pass {
    pub start: usize,
    pub end: usize,
    pub language: String,
}

/// The contents of a `Pass`.
#[verifier::ext_equal]
pub struct PassText {
    pub start: nat,
    pub end: nat,
    pub language: Seq<char>,
}

impl View for Pass {
    type V = PassText;

    open spec fn view(&self) -> PassText {
        PassText { start: self.start as nat, end: self.end as nat, language: self.language@ }
    }
}

/// The contents of a list of passes.
pub open spec fn pass_texts(passes: Seq<Pass>) -> Seq<PassText> {
    passes.map_values(|p: Pass| p@)
}

/// Runs of one language: of consecutive spans of the same language, the first.
pub open spec fn runs_of(spans: Seq<(nat, Seq<char>)>) -> Seq<(nat, Seq<char>)>
    decreases spans.len(),
{
    if spans.len() == 0 {
        Seq::empty()
    } else {
        let runs = runs_of(spans.drop_last());
        if runs.len() > 0 && runs.last().1 == spans.last().1 {
            runs
        } else {
            runs.push(spans.last())
        }
    }
}

/// Where a run ends: where the next one starts, but in the recording.
pub open spec fn run_end(runs: Seq<(nat, Seq<char>)>, len: nat, i: int) -> nat {
    if i + 1 < runs.len() && runs[i + 1].0 < len {
        runs[i + 1].0
    } else {
        len
    }
}

/// The part of the recording that belongs to a run. The first run also has the
/// audio before it.
pub open spec fn run_pass(runs: Seq<(nat, Seq<char>)>, len: nat, i: int) -> PassText {
    PassText {
        start: if i == 0 {
            0
        } else {
            runs[i].0
        },
        end: run_end(runs, len, i),
        language: runs[i].1,
    }
}

/// The passes for the first `k` runs; a run without audio has none.
pub open spec fn run_passes(runs: Seq<(nat, Seq<char>)>, len: nat, k: nat) -> Seq<PassText>
    decreases k,
{
    if k == 0 {
        Seq::empty()
    } else {
        let front = run_passes(runs, len, (k - 1) as nat);
        let pass = run_pass(runs, len, k - 1);
        if pass.start < pass.end {
            front.push(pass)
        } else {
            front
        }
    }
}

/// One pass over the whole recording.
pub open spec fn whole(len: nat, language: Seq<char>) -> Seq<PassText> {
    seq![PassText { start: 0, end: len, language }]
}

/// The passes of the final transcription. A language that the user has set, and
/// a recording in one language, take a single pass; several languages take one
/// for each run. Without any run the language that was settled on while
/// recording stands, if there is one.
pub open spec fn plan(
    setting: Seq<char>,
    spans: Seq<(nat, Seq<char>)>,
    established: Option<Seq<char>>,
    len: nat,
) -> Seq<PassText> {
    let runs = runs_of(spans);
    if setting != AUTO@ {
        whole(len, setting)
    } else if runs.len() == 0 {
        whole(
            len,
            match established {
                Some(language) => language,
                None => AUTO@,
            },
        )
    } else if runs.len() == 1 {
        whole(len, runs[0].1)
    } else {
        run_passes(runs, len, runs.len())
    }
}

/// Collapse consecutive spans of the same language into runs.
pub fn merge_runs(spans: &Vec<(usize, String)>) -> (r: Vec<(usize, String)>)
    ensures
        span_texts(r@) == runs_of(span_texts(spans@)),
{
    let ghost all = span_texts(spans@);
    let mut runs: Vec<(usize, String)> = Vec::new();
    let mut i: usize = 0;
    proof {
        assert(all.take(0) =~= Seq::empty());
        assert(span_texts(runs@) =~= runs_of(all.take(0)));
    }
    while i < spans.len()
        invariant
            i <= spans@.len(),
            all == span_texts(spans@),
            span_texts(runs@) == runs_of(all.take(i as int)),
        decreases spans@.len() - i,
    {
        let ghost before = span_texts(runs@);
        let n: usize = runs.len();
        let goes_on: bool = n > 0 && same(runs[n - 1].1.as_str(), spans[i].1.as_str());
        proof {
            assert(all.take(i + 1).drop_last() =~= all.take(i as int));
            assert(all.take(i + 1).last() == all[i as int]);
            if n > 0 {
                assert(before.last() == (runs@[n - 1].0 as nat, runs@[n - 1].1@));
            }
        }
        if !goes_on {
            runs.push((spans[i].0, spans[i].1.clone()));
            assert(span_texts(runs@) =~= before.push(all[i as int]));
        }
        i = i + 1;
    }
    assert(all.take(all.len() as int) =~= all);
    runs
}

/// Plan the final transcription of a recording of `len` samples.
pub fn plan_passes(
    setting: &str,
    spans: &Vec<(usize, String)>,
    established: Option<String>,
    len: usize,
) -> (r: Vec<Pass>)
    ensures
        pass_texts(r@) == plan(
            setting@,
            span_texts(spans@),
            opt_chars(established),
            len as nat,
        ),
{
    if !same(setting, AUTO) {
        return single(len, setting.to_owned());
    }
    let runs: Vec<(usize, String)> = merge_runs(spans);
    let ghost texts_of_runs = span_texts(runs@);
    if runs.len() == 0 {
        return match established {
            Some(language) => single(len, language),
            None => single(len, AUTO.to_owned()),
        };
    }
    if runs.len() == 1 {
        assert(texts_of_runs[0].1 == runs@[0].1@);
        return single(len, runs[0].1.clone());
    }
    let mut passes: Vec<Pass> = Vec::new();
    let mut i: usize = 0;
    assert(pass_texts(passes@) =~= run_passes(texts_of_runs, len as nat, 0));
    while i < runs.len()
        invariant
            i <= runs@.len(),
            texts_of_runs == span_texts(runs@),
            pass_texts(passes@) == run_passes(texts_of_runs, len as nat, i as nat),
        decreases runs@.len() - i,
    {
        let ghost before = pass_texts(passes@);
        let start: usize = if i == 0 {
            0
        } else {
            runs[i].0
        };
        let end: usize = if i + 1 < runs.len() && runs[i + 1].0 < len {
            runs[i + 1].0
        } else {
            len
        };
        proof {
            assert(texts_of_runs[i as int] == (runs@[i as int].0 as nat, runs@[i as int].1@));
            if i + 1 < runs@.len() {
                assert(texts_of_runs[i + 1].0 == runs@[i + 1].0 as nat);
            }
        }
        if start < end {
            passes.push(Pass { start, end, language: runs[i].1.clone() });
            assert(pass_texts(passes@) =~= before.push(
                run_pass(texts_of_runs, len as nat, i as int),
            ));
        }
        i = i + 1;
    }
    passes
}

fn single(len: usize, language: String) -> (r: Vec<Pass>)
    ensures
        pass_texts(r@) == whole(len as nat, language@),
{
    let mut r: Vec<Pass> = Vec::new();
    r.push(Pass { start: 0, end: len, language });
    assert(pass_texts(r@) =~= whole(len as nat, language@));
    r
}

/// Passes that cover a recording from its start to its end, each sample once
/// and in order.
pub open spec fn tile(passes: Seq<PassText>, len: nat) -> bool {
    &&& passes.len() > 0
    &&& passes[0].start == 0
    &&& passes.last().end == len
    &&& forall|i: int| 0 <= i < passes.len() ==> (#[trigger] passes[i]).start < passes[i].end
    &&& forall|i: int|
        0 < i < passes.len() ==> (#[trigger] passes[i]).start == passes[i - 1].end
}

proof fn lemma_runs(spans: Seq<(nat, Seq<char>)>)
    requires
        in_order(spans),
    ensures
        in_order(runs_of(spans)),
        runs_of(spans).len() > 0 <==> spans.len() > 0,
        spans.len() > 0 ==> runs_of(spans).last().0 <= spans.last().0 && runs_of(spans).last().1
            == spans.last().1,
    decreases spans.len(),
{
    if spans.len() > 0 {
        let front = spans.drop_last();
        assert forall|i: int, j: int| 0 <= i < j < front.len() implies (#[trigger] front[i]).0 <= (
        #[trigger] front[j]).0 by {
            assert(spans[i].0 <= spans[j].0);
        }
        lemma_runs(front);
        let before = runs_of(front);
        let after = runs_of(spans);
        if front.len() > 0 {
            assert(front.last() == spans[front.len() - 1]);
            assert(spans[front.len() - 1].0 <= spans[front.len() as int].0);
        }
        assert forall|i: int, j: int| 0 <= i < j < after.len() implies (#[trigger] after[i]).0 <= (
        #[trigger] after[j]).0 by {
            assert(after[i] == before[i]);
            if j < before.len() {
                assert(before[i].0 <= before[j].0);
            } else if i < before.len() - 1 {
                assert(before[i].0 <= before[before.len() - 1].0);
            }
        }
    }
}

proof fn lemma_run_passes_tile(runs: Seq<(nat, Seq<char>)>, len: nat, k: nat)
    requires
        in_order(runs),
        0 < k <= runs.len(),
    ensures
        run_passes(runs, len, k).len() == 0 ==> run_end(runs, len, k - 1) == 0,
        run_passes(runs, len, k).len() > 0 ==> tile(
            run_passes(runs, len, k),
            run_end(runs, len, k - 1),
        ),
    decreases k,
{
    let ps = run_passes(runs, len, k);
    let pass = run_pass(runs, len, k - 1);
    if k == 1 {
        assert(run_passes(runs, len, 0) =~= Seq::empty());
        if pass.start < pass.end {
            assert(ps =~= seq![pass]);
        }
    } else {
        let front = run_passes(runs, len, (k - 1) as nat);
        lemma_run_passes_tile(runs, len, (k - 1) as nat);
        if k < runs.len() {
            assert(runs[k - 1].0 <= runs[k as int].0);
        }
        if pass.start < pass.end {
            assert(ps == front.push(pass));
            assert(run_end(runs, len, k - 2) == pass.start);
            assert forall|i: int| 0 <= i < ps.len() implies (#[trigger] ps[i]).start
                < ps[i].end by {
                if i < front.len() {
                    assert(ps[i] == front[i]);
                }
            }
            assert forall|i: int| 0 < i < ps.len() implies (#[trigger] ps[i]).start == ps[i
                - 1].end by {
                assert(ps[i - 1] == front[i - 1]);
                if i < front.len() {
                    assert(ps[i] == front[i]);
                }
            }
        } else {
            assert(ps == front);
            assert(run_end(runs, len, k - 2) == run_end(runs, len, k - 1));
        }
    }
}

/// The final transcription covers the whole recording: every sample once, and
/// in order, whatever languages were heard.
pub proof fn law_final_pass_covers_the_recording(
    setting: Seq<char>,
    spans: Seq<(nat, Seq<char>)>,
    established: Option<Seq<char>>,
    len: nat,
)
    requires
        in_order(spans),
        len > 0,
    ensures
        tile(plan(setting, spans, established, len), len),
{
    let runs = runs_of(spans);
    lemma_runs(spans);
    if setting == AUTO@ && runs.len() > 1 {
        lemma_run_passes_tile(runs, len, runs.len());
    }
}

/// A recording in which one language was heard is transcribed in one pass, in
/// that language.
pub proof fn law_one_language_takes_one_pass(
    spans: Seq<(nat, Seq<char>)>,
    language: Seq<char>,
    established: Option<Seq<char>>,
    len: nat,
)
    requires
        spans.len() > 0,
        forall|i: int| 0 <= i < spans.len() ==> (#[trigger] spans[i]).1 == language,
    ensures
        plan(AUTO@, spans, established, len) == whole(len, language),
{
    lemma_one_run(spans, language);
}

proof fn lemma_one_run(spans: Seq<(nat, Seq<char>)>, language: Seq<char>)
    requires
        spans.len() > 0,
        forall|i: int| 0 <= i < spans.len() ==> (#[trigger] spans[i]).1 == language,
    ensures
        runs_of(spans).len() == 1,
        runs_of(spans)[0].1 == language,
    decreases spans.len(),
{
    let front = spans.drop_last();
    assert(spans.last() == spans[spans.len() - 1]);
    if front.len() > 0 {
        assert forall|i: int| 0 <= i < front.len() implies (#[trigger] front[i]).1 == language by {
            assert(front[i] == spans[i]);
        }
        lemma_one_run(front, language);
        assert(runs_of(front).last() == runs_of(front)[0]);
    } else {
        assert(runs_of(front) =~= Seq::empty());
        assert(runs_of(spans) =~= seq![spans.last()]);
    }
}

/// Every span that was noted while recording lies in a run of its language: the
/// run starts no later, and the next run starts no earlier.
pub proof fn law_spans_lie_in_their_runs(spans: Seq<(nat, Seq<char>)>, i: int)
    requires
        in_order(spans),
        0 <= i < spans.len(),
    ensures
        exists|j: int|
            {
                &&& 0 <= j < runs_of(spans).len()
                &&& (#[trigger] runs_of(spans)[j]).1 == spans[i].1
                &&& runs_of(spans)[j].0 <= spans[i].0
                &&& j + 1 < runs_of(spans).len() ==> spans[i].0 <= runs_of(spans)[j + 1].0
            },
    decreases spans.len(),
{
    let front = spans.drop_last();
    let runs = runs_of(spans);
    let before = runs_of(front);
    lemma_runs(spans);
    if i == spans.len() - 1 {
        let j = runs.len() - 1;
        assert(runs[j].1 == spans[i].1);
    } else {
        assert forall|a: int, b: int| 0 <= a < b < front.len() implies (#[trigger] front[a]).0 <= (
        #[trigger] front[b]).0 by {
            assert(spans[a].0 <= spans[b].0);
        }
        law_spans_lie_in_their_runs(front, i);
        let j = choose|j: int|
            {
                &&& 0 <= j < before.len()
                &&& (#[trigger] before[j]).1 == front[i].1
                &&& before[j].0 <= front[i].0
                &&& j + 1 < before.len() ==> front[i].0 <= before[j + 1].0
            };
        assert(runs[j] == before[j]);
        assert(front[i] == spans[i]);
        if j + 1 < runs.len() {
            if j + 1 < before.len() {
                assert(runs[j + 1] == before[j + 1]);
            } else {
                assert(runs[j + 1] == spans.last());
                assert(spans[i].0 <= spans[spans.len() - 1].0);
            }
        }
    }
}

/// The texts of the passes that succeeded, without those that are blank.
pub open spec fn pass_results(results: Seq<Result<String, String>>) -> Seq<Seq<char>>
    decreases results.len(),
{
    if results.len() == 0 {
        Seq::empty()
    } else {
        let front = pass_results(results.drop_last());
        match results.last() {
            Ok(text) => if is_blank(text@) {
                front
            } else {
                front.push(trimmed(text@))
            },
            Err(_) => front,
        }
    }
}

/// Put the results of the passes together, a line for each.
pub fn join_passes(results: &Vec<Result<String, String>>) -> (r: String)
    ensures
        r@ == joined(pass_results(results@), "\n"@),
{
    let mut parts: Vec<String> = Vec::new();
    let mut i: usize = 0;
    proof {
        assert(results@.take(0) =~= Seq::empty());
        assert(texts(parts@) =~= pass_results(results@.take(0)));
    }
    while i < results.len()
        invariant
            i <= results@.len(),
            texts(parts@) == pass_results(results@.take(i as int)),
        decreases results@.len() - i,
    {
        let ghost before = texts(parts@);
        proof {
            assert(results@.take(i + 1).drop_last() =~= results@.take(i as int));
            assert(results@.take(i + 1).last() == results@[i as int]);
        }
        if let Ok(text) = &results[i] {
            if !blank(text.as_str()) {
                parts.push(trim(text.as_str()));
                assert(texts(parts@) =~= before.push(trimmed(text@)));
            }
        }
        i = i + 1;
    }
    assert(results@.take(results@.len() as int) =~= results@);
    join(&parts, "\n")
}

/// A final transcript replaces the live one unless it is empty, or shorter than
/// a quarter of it: such a pass has collapsed.
pub open spec fn replaces(text: Seq<char>, live: Seq<char>) -> bool {
    text.len() > 0 && 4 * byte_len(text) >= byte_len(trimmed(live))
}

/// Whether the final transcript replaces the live one.
pub fn replaces_live(text: &str, live: &str) -> (r: bool)
    ensures
        r == replaces(text@, live@),
{
    let len: u128 = byte_count(text);
    let live_text: String = trim(live);
    let live_len: u128 = byte_count(live_text.as_str());
    text.unicode_len() > 0 && 4 * len >= live_len
}

proof fn lemma_front_in_order(spans: Seq<(nat, Seq<char>)>)
    requires
        in_order(spans),
        spans.len() > 0,
    ensures
        in_order(spans.drop_last()),
{
    let front = spans.drop_last();
    assert forall|a: int, b: int| 0 <= a < b < front.len() implies (#[trigger] front[a]).0 <= (
    #[trigger] front[b]).0 by {
        assert(spans[a].0 <= spans[b].0);
    }
}

/// A run goes on to the span that starts the next one.
proof fn lemma_run_of_span(spans: Seq<(nat, Seq<char>)>, i: int) -> (j: int)
    requires
        in_order(spans),
        0 <= i < spans.len(),
    ensures
        0 <= j < runs_of(spans).len(),
        runs_of(spans)[j].1 == spans[i].1,
        runs_of(spans)[j].0 <= spans[i].0,
        i == 0 ==> j == 0,
        j + 1 < runs_of(spans).len() ==> i + 1 < spans.len() && spans[i + 1].0 <= runs_of(spans)[j
            + 1].0,
    decreases spans.len(),
{
    let front = spans.drop_last();
    let runs = runs_of(spans);
    let before = runs_of(front);
    lemma_runs(spans);
    if i == spans.len() - 1 {
        runs.len() - 1
    } else {
        lemma_front_in_order(spans);
        let j = lemma_run_of_span(front, i);
        assert(runs[j] == before[j]);
        assert(front[i] == spans[i]);
        if j + 1 < runs.len() {
            if j + 1 < before.len() {
                assert(runs[j + 1] == before[j + 1]);
                assert(front[i + 1] == spans[i + 1]);
            } else {
                assert(runs[j + 1] == spans.last());
                if i + 1 < spans.len() - 1 {
                    assert(spans[i + 1].0 <= spans[spans.len() - 1].0);
                }
            }
        }
        j
    }
}

/// The first run starts with the first span; every later one starts with a span
/// in another language than the span before it.
pub proof fn law_runs_start_where_the_language_changes(spans: Seq<(nat, Seq<char>)>, j: int) -> (i:
    int)
    requires
        0 <= j < runs_of(spans).len(),
    ensures
        0 <= i < spans.len(),
        runs_of(spans)[j] == spans[i],
        j == 0 ==> i == 0,
        j > 0 ==> i > 0 && spans[i - 1].1 != spans[i].1 && runs_of(spans)[j - 1].1 != spans[i].1,
    decreases spans.len(),
{
    let front = spans.drop_last();
    let runs = runs_of(spans);
    let before = runs_of(front);
    if j < before.len() {
        let i = law_runs_start_where_the_language_changes(front, j);
        assert(runs[j] == before[j]);
        assert(front[i] == spans[i]);
        if j > 0 {
            assert(runs[j - 1] == before[j - 1]);
            assert(front[i - 1] == spans[i - 1]);
        }
        i
    } else {
        assert(runs[j] == spans.last());
        lemma_last_run(front);
        if j > 0 {
            assert(runs[j - 1] == before.last());
            assert(front.last() == spans[spans.len() - 2]);
        }
        spans.len() - 1
    }
}

proof fn lemma_last_run(spans: Seq<(nat, Seq<char>)>)
    ensures
        runs_of(spans).len() > 0 <==> spans.len() > 0,
        spans.len() > 0 ==> runs_of(spans).last().1 == spans.last().1,
    decreases spans.len(),
{
    if spans.len() > 0 {
        lemma_last_run(spans.drop_last());
    }
}

proof fn lemma_pass_of_run(runs: Seq<(nat, Seq<char>)>, len: nat, k: nat, n: int) -> (m: int)
    requires
        0 <= n < run_passes(runs, len, k).len(),
    ensures
        0 <= m < k,
        run_passes(runs, len, k)[n] == run_pass(runs, len, m),
        n > 0 ==> m > 0,
        run_passes(runs, len, k)[n].start < run_passes(runs, len, k)[n].end,
    decreases k,
{
    let front = run_passes(runs, len, (k - 1) as nat);
    if n < front.len() {
        assert(run_passes(runs, len, k)[n] == front[n]);
        lemma_pass_of_run(runs, len, (k - 1) as nat, n)
    } else {
        if n > 0 {
            let _earlier = lemma_pass_of_run(runs, len, (k - 1) as nat, 0);
        }
        k - 1
    }
}

/// Every sample is transcribed in the language that was last heard by then: a
/// pass that holds sample `x` has the language of the last span, `i`, that
/// starts at or before `x`, or of the first span where none does.
pub proof fn law_audio_is_transcribed_in_the_language_heard(
    spans: Seq<(nat, Seq<char>)>,
    established: Option<Seq<char>>,
    len: nat,
    k: int,
    x: nat,
    i: int,
)
    requires
        in_order(spans),
        0 <= k < plan(AUTO@, spans, established, len).len(),
        plan(AUTO@, spans, established, len)[k].start <= x < plan(
            AUTO@,
            spans,
            established,
            len,
        )[k].end,
        0 <= i < spans.len(),
        spans[i].0 <= x || i == 0,
        i + 1 < spans.len() ==> x < spans[i + 1].0,
    ensures
        plan(AUTO@, spans, established, len)[k].language == spans[i].1,
{
    let runs = runs_of(spans);
    lemma_runs(spans);
    let j = lemma_run_of_span(spans, i);
    if runs.len() > 1 {
        let m = lemma_pass_of_run(runs, len, runs.len(), k);
        if m < j {
            if m + 1 < j {
                assert(runs[m + 1].0 <= runs[j].0);
            }
        } else if j < m {
            if j + 1 < m {
                assert(runs[j + 1].0 <= runs[m].0);
            }
        }
    }
}

/// A new pass begins only where the language changes: its first sample is the
/// start of a span in another language than the span before.
pub proof fn law_passes_part_where_the_language_changes(
    setting: Seq<char>,
    spans: Seq<(nat, Seq<char>)>,
    established: Option<Seq<char>>,
    len: nat,
    k: int,
)
    requires
        0 < k < plan(setting, spans, established, len).len(),
    ensures
        setting == AUTO@,
        exists|i: int|
            {
                &&& 0 < i < spans.len()
                &&& (#[trigger] spans[i]).0 == plan(setting, spans, established, len)[k].start
                &&& spans[i].1 == plan(setting, spans, established, len)[k].language
                &&& spans[i - 1].1 != spans[i].1
            },
{
    let runs = runs_of(spans);
    let m = lemma_pass_of_run(runs, len, runs.len(), k);
    let i = law_runs_start_where_the_language_changes(spans, m);
    assert(spans[i].0 == plan(setting, spans, established, len)[k].start);
}

/// What the user has set goes for the whole recording. Where the language is
/// left open and none was noted, the one that was settled on does; where none
/// was settled on either, it stays open.
pub proof fn law_the_setting_goes_first(
    setting: Seq<char>,
    spans: Seq<(nat, Seq<char>)>,
    established: Seq<char>,
    settled: Option<Seq<char>>,
    len: nat,
)
    ensures
        setting != "auto"@ ==> {
            let passes = plan(setting, spans, settled, len);
            passes.len() == 1 && passes[0].start == 0 && passes[0].end == len && passes[0].language
                == setting
        },
        ({
            let passes = plan("auto"@, Seq::empty(), Some(established), len);
            passes.len() == 1 && passes[0].start == 0 && passes[0].end == len && passes[0].language
                == established
        }),
        ({
            let passes = plan("auto"@, Seq::empty(), None, len);
            passes.len() == 1 && passes[0].start == 0 && passes[0].end == len && passes[0].language
                == "auto"@
        }),
{
}

/// The results are put together in order: a pass that gave text adds it, without
/// the white space around it, on a line of its own; one that failed or gave
/// nothing adds nothing.
pub proof fn law_every_pass_adds_its_text(
    results: Seq<Result<String, String>>,
    text: String,
    error: String,
)
    ensures
        joined(pass_results(Seq::empty()), "\n"@).len() == 0,
        joined(pass_results(results.push(Err(error))), "\n"@) == joined(
            pass_results(results),
            "\n"@,
        ),
        trimmed(text@).len() == 0 ==> joined(pass_results(results.push(Ok(text))), "\n"@) == joined(
            pass_results(results),
            "\n"@,
        ),
        trimmed(text@).len() > 0 && joined(pass_results(results), "\n"@).len() == 0 ==> joined(
            pass_results(results.push(Ok(text))),
            "\n"@,
        ) == trimmed(text@),
        trimmed(text@).len() > 0 && joined(pass_results(results), "\n"@).len() > 0 ==> joined(
            pass_results(results.push(Ok(text))),
            "\n"@,
        ) == joined(pass_results(results), "\n"@) + "\n"@ + trimmed(text@),
{
    lemma_blank_trimmed(text@);
    let parts = pass_results(results);
    assert(results.push(Err(error)).drop_last() =~= results);
    assert(results.push(Ok(text)).drop_last() =~= results);
    lemma_results_are_not_empty(results);
    if trimmed(text@).len() > 0 {
        let more = parts.push(trimmed(text@));
        assert(more.drop_last() =~= parts);
        if parts.len() > 0 {
            assert(parts[0].len() > 0);
            lemma_joined_is_not_empty(parts);
        }
    }
}

proof fn lemma_results_are_not_empty(results: Seq<Result<String, String>>)
    ensures
        forall|i: int|
            0 <= i < pass_results(results).len() ==> (#[trigger] pass_results(results)[i]).len()
                > 0,
    decreases results.len(),
{
    if results.len() > 0 {
        lemma_results_are_not_empty(results.drop_last());
        if let Ok(text) = results.last() {
            lemma_blank_trimmed(text@);
        }
        let front = pass_results(results.drop_last());
        let all = pass_results(results);
        assert forall|i: int| 0 <= i < all.len() implies (#[trigger] all[i]).len() > 0 by {
            if i < front.len() {
                assert(all[i] == front[i]);
            }
        }
    }
}

proof fn lemma_joined_is_not_empty(parts: Seq<Seq<char>>)
    requires
        parts.len() > 0,
        forall|i: int| 0 <= i < parts.len() ==> (#[trigger] parts[i]).len() > 0,
    ensures
        joined(parts, "\n"@).len() > 0,
{
    reveal_strlit("\n");
    assert(parts[0].len() > 0);
}

/// A final transcript replaces the live one where it has kept at least a quarter
/// of its bytes; an empty one never does.
pub proof fn law_a_collapsed_transcript_replaces_nothing(text: Seq<char>, live: Seq<char>)
    ensures
        text.len() == 0 ==> !replaces(text, live),
        4 * encode_utf8(text).len() < encode_utf8(trimmed(live)).len() ==> !replaces(text, live),
        text.len() > 0 && 4 * encode_utf8(text).len() >= encode_utf8(trimmed(live)).len()
            ==> replaces(text, live),
{
}

proof fn lemma_tile_reaches(passes: Seq<PassText>, len: nat, n: int, x: nat) -> (k: int)
    requires
        tile(passes, len),
        0 < n <= passes.len(),
        x < passes[n - 1].end,
    ensures
        0 <= k < n,
        passes[k].start <= x < passes[k].end,
    decreases n,
{
    if passes[n - 1].start <= x {
        n - 1
    } else {
        assert(passes[n - 1].start == if n == 1 { 0 } else { passes[n - 2].end });
        lemma_tile_reaches(passes, len, n - 1, x)
    }
}

proof fn lemma_tile_in_order(passes: Seq<PassText>, len: nat, i: int, j: int)
    requires
        tile(passes, len),
        0 <= i < j < passes.len(),
    ensures
        passes[i].end <= passes[j].start,
    decreases j - i,
{
    assert(passes[j].start == passes[j - 1].end);
    if i < j - 1 {
        lemma_tile_in_order(passes, len, i, j - 1);
        assert(passes[j - 1].start < passes[j - 1].end);
    }
}

/// Every sample of a recording is transcribed in one pass and in no other, and
/// the passes follow each other as the audio does.
pub proof fn law_every_sample_is_transcribed_once(
    setting: Seq<char>,
    spans: Seq<(nat, Seq<char>)>,
    established: Option<Seq<char>>,
    len: nat,
    x: nat,
    i: int,
    j: int,
)
    requires
        in_order(spans),
        x < len,
    ensures
        exists|k: int|
            0 <= k < plan(setting, spans, established, len).len() && (#[trigger] plan(
                setting,
                spans,
                established,
                len,
            )[k]).start <= x < plan(setting, spans, established, len)[k].end,
        0 <= i < j < plan(setting, spans, established, len).len() ==> plan(
            setting,
            spans,
            established,
            len,
        )[i].end <= plan(setting, spans, established, len)[j].start,
        0 <= i < plan(setting, spans, established, len).len() ==> plan(
            setting,
            spans,
            established,
            len,
        )[i].end <= len,
{
    let passes = plan(setting, spans, established, len);
    law_final_pass_covers_the_recording(setting, spans, established, len);
    let k = lemma_tile_reaches(passes, len, passes.len() as int, x);
    assert(passes[k].start <= x < passes[k].end);
    if 0 <= i < j < passes.len() {
        lemma_tile_in_order(passes, len, i, j);
    }
    if 0 <= i < passes.len() - 1 {
        lemma_tile_in_order(passes, len, i, passes.len() - 1);
        assert(passes[passes.len() - 1].start < passes[passes.len() - 1].end);
    }
}

} // verus!
