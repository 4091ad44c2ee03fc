//! What the language model is asked about a meeting, and what its replies mean.

use vstd::prelude::*;
use vstd::string::StrSliceExecFns;

use crate::agent::or_empty;
use crate::json::{get, json_of, json_read, parse, text_member, Json};
use crate::settings::get_api_key;
use crate::text::{
    blank, find_char, first_line, is_blank, is_white, law_first_line_ends_at_the_line_feed,
    law_trimming_takes_the_character, law_trimming_takes_the_white_ends, lemma_blank_trimmed,
    lemma_find_char_first, lemma_trimmed_ends, lemma_trimmed_is_part, lemma_trimmed_of_is_part,
    lemma_trimmed_of_parts, lemma_trimmed_parts, line_first, opt_chars, prefix_stripped, same,
    strip_prefix, trim, trim_char, trimmed, trimmed_of, unless_blank,
};

verus! {

/// Where the models are.
pub const GEMINI_MODELS_URL: &'static str =
    "https://generativelanguage.googleapis.com/v1beta/models";

/// Where files are uploaded.
pub const GEMINI_UPLOAD_URL: &'static str =
    "https://generativelanguage.googleapis.com/upload/v1beta/files";

/// Where uploaded files are looked up.
pub const GEMINI_FILES_BASE: &'static str = "https://generativelanguage.googleapis.com/v1beta";

/// How the model is asked for a transcript.
pub const TRANSCRIBE_PROMPT: &'static str =
    "Transcribe this meeting audio verbatim. Output ONLY the transcript \
text as continuous prose — no timestamps, no speaker labels, no preamble or commentary. The audio \
may be noisy with multiple overlapping speakers; do your best with unclear speech. Keep the \
original spoken language(s); do not translate.";

/// What the model is told about its role when it suggests questions.
pub const SYSTEM_PROMPT: &'static str =
    "You are a sharp, quiet third participant sitting in on a live meeting. \
You are given a rolling transcript of what has been said so far, and sometimes the user's own notes. \
Suggest up to 3 specific, insightful questions the user might want to ask next. \
\
Anchor every question to the concrete topic on the table: name the actual systems, technologies, \
people, and decisions being discussed, and ask what a domain expert in that exact area would ask. \
Probe design tradeoffs, hidden assumptions, risks, edge cases, and how success will be measured. \
\
For example, if the transcript says \"let's design a RAG system for Hermes\", good questions are: \
\"What's the chunking strategy and target chunk size for the Hermes corpus?\", \
\"How will we evaluate retrieval quality, and what's the latency budget per query?\", \
\"Which embedding model, and do we re-embed when documents change?\". \
Bad (generic) questions to avoid: \"What are the requirements?\", \"Who owns this?\", \"What's the timeline?\". \
\
When the user has written notes, build on what they clearly care about and do not re-suggest things \
they have already written down. If nothing genuinely useful comes to mind, return an empty list.";

/// What the model is told about its role when it names a meeting.
pub const TITLE_ROLE: &'static str = "You write short, specific titles for meetings.";

/// How the model is asked for a title; the content follows.
pub const TITLE_PROMPT: &'static str =
    "Based on the following meeting content, write a concise, specific title of \
3 to 7 words. Return only the title: no quotes, no preamble, no trailing \
punctuation.\n\n";

/// The first of several keys that is there and not blank.
pub open spec fn first_key(keys: Seq<Option<Seq<char>>>) -> Option<Seq<char>>
    decreases keys.len(),
{
    if keys.len() == 0 {
        None
    } else if keys[0] is Some && !is_blank(keys[0]->0) {
        keys[0]
    } else {
        first_key(keys.drop_first())
    }
}

/// The key to use: the stored one, else that of the variable `GEMINI_API_KEY`,
/// else that of `GOOGLE_API_KEY`; a blank one does not count.
pub fn api_key(
    stored: Option<String>,
    gemini: Option<String>,
    google: Option<String>,
) -> (r: Option<String>)
    ensures
        opt_chars(r) == first_key(seq![opt_chars(stored), opt_chars(gemini), opt_chars(google)]),
{
    proof {
        reveal_with_fuel(first_key, 4);
        let keys = seq![opt_chars(stored), opt_chars(gemini), opt_chars(google)];
        assert(keys.drop_first() =~= seq![opt_chars(gemini), opt_chars(google)]);
        assert(keys.drop_first().drop_first() =~= seq![opt_chars(google)]);
        assert(keys.drop_first().drop_first().drop_first() =~= Seq::empty());
    }
    let stored: Option<String> = get_api_key(stored);
    if stored.is_some() {
        return stored;
    }
    let gemini: Option<String> = unless_blank(gemini);
    if gemini.is_some() {
        return gemini;
    }
    unless_blank(google)
}

/// The address that a model is asked at.
pub fn generate_content_url(model: &str) -> (r: String)
    ensures
        r@ == GEMINI_MODELS_URL@ + "/"@ + model@ + ":generateContent"@,
{
    let mut r: String = GEMINI_MODELS_URL.to_owned();
    r.append("/");
    r.append(model);
    r.append(":generateContent");
    r
}

/// The address that an uploaded file is looked up at.
pub fn file_url(name: &str) -> (r: String)
    ensures
        r@ == GEMINI_FILES_BASE@ + "/"@ + name@,
{
    let mut r: String = GEMINI_FILES_BASE.to_owned();
    r.append("/");
    r.append(name);
    r
}

/// How the model is asked for questions.
pub open spec fn suggestion_text(transcript: Seq<char>, notes: Seq<char>) -> Seq<char> {
    (if is_blank(notes) {
        Seq::<char>::empty()
    } else {
        "The user's own notes so far:\n\n"@ + notes + "\n\n"@
    }) + "Live meeting transcript so far:\n\n"@ + transcript
        + "\n\nSuggest up to 3 questions the user might want to ask next."@
}

/// How the model is asked for questions.
pub fn suggestion_prompt(transcript: &str, notes: &str) -> (r: String)
    ensures
        r@ == suggestion_text(transcript@, notes@),
{
    let mut r: String = String::new();
    if !blank(notes) {
        r.append("The user's own notes so far:\n\n");
        r.append(notes);
        r.append("\n\n");
    }
    proof {
        if is_blank(notes@) {
            assert(r@ =~= Seq::<char>::empty());
        } else {
            assert(r@ =~= "The user's own notes so far:\n\n"@ + notes@ + "\n\n"@);
        }
    }
    r.append("Live meeting transcript so far:\n\n");
    r.append(transcript);
    r.append("\n\nSuggest up to 3 questions the user might want to ask next.");
    r
}

/// How the model is asked for the title of a meeting.
pub fn title_prompt(context: &str) -> (r: String)
    ensures
        r@ == TITLE_PROMPT@ + context@,
{
    TITLE_PROMPT.to_owned().concat(context)
}

/// A part of a reply.
pub struct Part {
    pub text: Option<String>,
}

/// The content of a candidate.
pub struct Content {
    pub parts: Vec<Part>,
}

/// One of the replies that the model offers.
pub struct Candidate {
    pub content: Content,
}

/// A reply of the model.
pub struct GeminiResponse {
    pub candidates: Vec<Candidate>,
}

/// Suggested questions.
pub struct Questions {
    pub questions: Vec<String>,
}

/// The first text among parts.
pub open spec fn text_in_parts(parts: Seq<Part>) -> Option<Seq<char>>
    decreases parts.len(),
{
    if parts.len() == 0 {
        None
    } else if parts[0].text is Some {
        opt_chars(parts[0].text)
    } else {
        text_in_parts(parts.drop_first())
    }
}

/// The first text among candidates: their parts are gone through in order.
pub open spec fn text_in_candidates(candidates: Seq<Candidate>) -> Option<Seq<char>>
    decreases candidates.len(),
{
    if candidates.len() == 0 {
        None
    } else if text_in_parts(candidates[0].content.parts@) is Some {
        text_in_parts(candidates[0].content.parts@)
    } else {
        text_in_candidates(candidates.drop_first())
    }
}

fn first_part_text(parts: &Vec<Part>) -> (r: Option<String>)
    ensures
        opt_chars(r) == text_in_parts(parts@),
{
    let n: usize = parts.len();
    let mut i: usize = 0;
    assert(parts@.subrange(0, n as int) =~= parts@);
    while i < n
        invariant
            0 <= i <= n == parts@.len(),
            text_in_parts(parts@) == text_in_parts(parts@.subrange(i as int, n as int)),
        decreases n - i,
    {
        let ghost rest = parts@.subrange(i as int, n as int);
        assert(rest[0] == parts@[i as int]);
        assert(rest.drop_first() =~= parts@.subrange(i + 1, n as int));
        if let Some(t) = &parts[i].text {
            return Some(t.clone());
        }
        i = i + 1;
    }
    None
}

/// The first text of a reply, where it holds any.
pub fn reply_text(response: &GeminiResponse) -> (r: Option<String>)
    ensures
        opt_chars(r) == text_in_candidates(response.candidates@),
{
    let n: usize = response.candidates.len();
    let mut i: usize = 0;
    assert(response.candidates@.subrange(0, n as int) =~= response.candidates@);
    while i < n
        invariant
            0 <= i <= n == response.candidates@.len(),
            text_in_candidates(response.candidates@) == text_in_candidates(
                response.candidates@.subrange(i as int, n as int),
            ),
        decreases n - i,
    {
        let ghost rest = response.candidates@.subrange(i as int, n as int);
        assert(rest[0] == response.candidates@[i as int]);
        assert(rest.drop_first() =~= response.candidates@.subrange(i + 1, n as int));
        let t: Option<String> = first_part_text(&response.candidates[i].content.parts);
        if t.is_some() {
            return t;
        }
        i = i + 1;
    }
    None
}

/// The first text of a reply, from what reading the reply gave.
pub fn first_text(parsed: Result<GeminiResponse, String>) -> (r: Result<Option<String>, String>)
    ensures
        match parsed {
            Ok(response) => r is Ok && opt_chars(r->Ok_0) == text_in_candidates(
                response.candidates@,
            ),
            Err(e) => r is Err && r->Err_0@ == "failed to parse Gemini response: "@ + e@,
        },
{
    match parsed {
        Ok(response) => Ok(reply_text(&response)),
        Err(e) => Err("failed to parse Gemini response: ".to_owned().concat(e.as_str())),
    }
}

/// The error for a request that the service refused: what failed, the status and the reply.
pub fn refusal(what: &str, status: &str, raw: &str) -> (r: String)
    ensures
        r@ == what@ + " "@ + status@ + ": "@ + raw@,
{
    let mut r: String = what.to_owned();
    r.append(" ");
    r.append(status);
    r.append(": ");
    r.append(raw);
    r
}

/// How many questions are shown at once, at most.
pub const MAX_QUESTIONS: usize = 3;

/// How many of the questions of a reply are shown.
pub open spec fn questions_shown(given: nat) -> int {
    if given <= MAX_QUESTIONS {
        given as int
    } else {
        MAX_QUESTIONS as int
    }
}

/// The suggested questions, from what reading the reply's text gave: no text
/// means no questions this time, and of too many the first are kept.
pub fn suggest_questions(parsed: Option<Result<Questions, String>>) -> (r: Result<
    Vec<String>,
    String,
>)
    ensures
        match parsed {
            None => r is Ok && r->Ok_0@.len() == 0,
            Some(Ok(q)) => r is Ok && r->Ok_0@ == q.questions@.take(
                questions_shown(q.questions@.len()),
            ),
            Some(Err(e)) => r is Err && r->Err_0@ == "failed to parse questions JSON: "@ + e@,
        },
{
    match parsed {
        None => Ok(Vec::new()),
        Some(Ok(q)) => {
            let mut questions: Vec<String> = q.questions;
            let ghost given = questions@;
            questions.truncate(MAX_QUESTIONS);
            assert(questions@ =~= given.take(questions_shown(given.len())));
            Ok(questions)
        },
        Some(Err(e)) => Err("failed to parse questions JSON: ".to_owned().concat(e.as_str())),
    }
}

/// A line without a leading `Title:`.
pub open spec fn without_label(line: Seq<char>) -> Seq<char> {
    match prefix_stripped(line, "Title:"@) {
        Some(rest) => rest,
        None => line,
    }
}

/// A line without white space at its ends, a leading `Title:` and quotes around
/// it, each taken off once.
pub open spec fn peeled(line: Seq<char>) -> Seq<char> {
    trimmed(trimmed_of(trimmed(without_label(trimmed(line))), '"'))
}

/// A line from which these are taken off until none is left.
pub open spec fn bared(line: Seq<char>) -> Seq<char>
    decreases line.len(),
{
    let inner = peeled(line);
    if inner.len() < line.len() {
        bared(inner)
    } else {
        inner
    }
}

/// A title as the model gave it, tidied: its first line, without a leading
/// `Title:`, quotes around it and white space at its ends.
pub open spec fn tidy_title(s: Seq<char>) -> Seq<char> {
    bared(line_first(trimmed(s)))
}

/// Tidy a title that the model gave.
pub fn clean_title(s: &str) -> (r: String)
    ensures
        r@ == tidy_title(s@),
        prefix_stripped(r@, "Title:"@) is None,
        r@.len() > 0 ==> r@[0] != '"' && r@.last() != '"',
{
    proof {
        law_title_is_tidy(s@);
    }
    let t: String = trim(s);
    let mut line: String = first_line(t.as_str());
    loop
        invariant
            bared(line@) == tidy_title(s@),
            prefix_stripped(tidy_title(s@), "Title:"@) is None,
            tidy_title(s@).len() > 0 ==> tidy_title(s@)[0] != '"' && tidy_title(s@).last() != '"',
        decreases line@.len(),
    {
        let outer: String = trim(line.as_str());
        let bare: String = match strip_prefix(outer.as_str(), "Title:") {
            Some(rest) => trim(rest.as_str()),
            None => trim(outer.as_str()),
        };
        let inner: String = trim(trim_char(bare.as_str(), '"').as_str());
        if inner.as_str().unicode_len() >= line.as_str().unicode_len() {
            return inner;
        }
        line = inner;
    }
}

proof fn lemma_peeled(line: Seq<char>)
    ensures
        peeled(line).len() <= line.len(),
        forall|i: int| 0 <= i < peeled(line).len() ==> line.contains(#[trigger] peeled(line)[i]),
        peeled(line).len() == line.len() ==> {
            &&& peeled(line) == line
            &&& prefix_stripped(line, "Title:"@) is None
            &&& line.len() > 0 ==> line[0] != '"' && line.last() != '"'
        },
        peeled(line).len() > 0 ==> !is_white(peeled(line)[0]) && !is_white(peeled(line).last()),
{
    let a = trimmed(line);
    let b = without_label(a);
    let c = trimmed(b);
    let d = trimmed_of(c, '"');
    reveal_strlit("Title:");
    lemma_trimmed_is_part(line);
    lemma_trimmed_is_part(b);
    lemma_trimmed_of_is_part(c, '"');
    lemma_trimmed_is_part(d);
    lemma_trimmed_ends(d);
    let t = peeled(line);
    assert forall|i: int| 0 <= i < t.len() implies line.contains(#[trigger] t[i]) by {
        let j = choose|j: int| 0 <= j < d.len() && d[j] == t[i];
        let k = choose|k: int| 0 <= k < c.len() && c[k] == d[j];
        let l = choose|l: int| 0 <= l < b.len() && b[l] == c[k];
        let m = a.len() - b.len() + l;
        assert(a[m] == b[l]);
        assert(line.contains(a[m]));
    }
}

proof fn lemma_bared(line: Seq<char>)
    ensures
        forall|i: int| 0 <= i < bared(line).len() ==> line.contains(#[trigger] bared(line)[i]),
        prefix_stripped(bared(line), "Title:"@) is None,
        bared(line).len() > 0 ==> {
            &&& bared(line)[0] != '"' && bared(line).last() != '"'
            &&& !is_white(bared(line)[0]) && !is_white(bared(line).last())
        },
    decreases line.len(),
{
    let inner = peeled(line);
    lemma_peeled(line);
    if inner.len() < line.len() {
        lemma_bared(inner);
        let r = bared(line);
        assert forall|i: int| 0 <= i < r.len() implies line.contains(#[trigger] r[i]) by {
            let j = choose|j: int| 0 <= j < inner.len() && inner[j] == r[i];
            assert(line.contains(inner[j]));
        }
    }
}

/// A tidied title is one line; it has no white space and no quote at its ends,
/// and no leading `Title:`.
pub proof fn law_title_is_tidy(s: Seq<char>)
    ensures
        !tidy_title(s).contains('\n'),
        prefix_stripped(tidy_title(s), "Title:"@) is None,
        tidy_title(s).len() > 0 ==> {
            &&& tidy_title(s)[0] != '"' && tidy_title(s).last() != '"'
            &&& !is_white(tidy_title(s)[0]) && !is_white(tidy_title(s).last())
        },
{
    let a = trimmed(s);
    let line = line_first(a);
    lemma_find_char_first(a, '\n');
    let n = find_char(a, '\n') as int;
    assert forall|i: int| 0 <= i < line.len() implies line[i] != '\n' by {
        assert(line[i] == a.subrange(0, n)[i]);
        assert(a.subrange(0, n).contains(a.subrange(0, n)[i]));
    }
    lemma_bared(line);
    let r = tidy_title(s);
    assert forall|i: int| 0 <= i < r.len() implies r[i] != '\n' by {
        assert(line.contains(r[i]));
    }
}

/// Tidying a tidied title changes nothing.
pub proof fn law_tidying_is_done_once(s: Seq<char>)
    ensures
        bared(bared(s)) == bared(s),
    decreases s.len(),
{
    lemma_peeled(s);
    if peeled(s).len() < s.len() {
        law_tidying_is_done_once(peeled(s));
    }
}

/// The title that a reply gives; a reply without text gives the empty title.
pub fn generate_title(text: Result<Option<String>, String>) -> (r: Result<String, String>)
    ensures
        match text {
            Ok(t) => r is Ok && r->Ok_0@ == tidy_title(or_empty(opt_chars(t))),
            Err(e) => r == Err::<String, String>(e),
        },
{
    match text {
        Ok(Some(t)) => Ok(clean_title(t.as_str())),
        Ok(None) => Ok(clean_title(String::new().as_str())),
        Err(e) => Err(e),
    }
}

/// The transcript that a reply gives; a reply without text gives the empty one.
pub fn transcribe_audio(text: Result<Option<String>, String>) -> (r: Result<String, String>)
    ensures
        match text {
            Ok(t) => r is Ok && r->Ok_0@ == trimmed(or_empty(opt_chars(t))),
            Err(e) => r == Err::<String, String>(e),
        },
{
    match text {
        Ok(Some(t)) => Ok(trim(t.as_str())),
        Ok(None) => Ok(trim(String::new().as_str())),
        Err(e) => Err(e),
    }
}

/// A file that was uploaded.
pub struct UploadedFile {
    pub name: String,
    pub uri: String,
    pub state: String,
}

/// What the reply to an upload says of the file: its name, its address and its state.
pub open spec fn upload_member(reply: Json, key: Seq<char>) -> Option<Seq<char>> {
    match reply.member("file"@) {
        Some(file) => file.text_at(key),
        None => None,
    }
}

/// Read the reply to an upload.
pub fn read_upload(reply: &serde_json::Value) -> (r: Result<UploadedFile, String>)
    ensures
        ({
            let name = upload_member(json_of(*reply), "name"@);
            let uri = upload_member(json_of(*reply), "uri"@);
            let state = upload_member(json_of(*reply), "state"@);
            match r {
                Ok(f) => name == Some(f.name@) && uri == Some(f.uri@) && f.state@ == or_empty(
                    state,
                ),
                Err(e) => if name is None {
                    e@ == "upload response missing file name"@
                } else {
                    uri is None && e@ == "upload response missing file uri"@
                },
            }
        }),
{
    let (name, uri, state): (Option<String>, Option<String>, Option<String>) = match get(
        reply,
        "file",
    ) {
        Some(file) => (
            text_member(file, "name"),
            text_member(file, "uri"),
            text_member(file, "state"),
        ),
        None => (None, None, None),
    };
    match (name, uri) {
        (None, _) => Err("upload response missing file name".to_owned()),
        (Some(_), None) => Err("upload response missing file uri".to_owned()),
        (Some(name), Some(uri)) => {
            let state: String = match state {
                Some(s) => s,
                None => String::new(),
            };
            Ok(UploadedFile { name, uri, state })
        },
    }
}

/// What the reply to an upload gives: the file, or the text of an error.
pub fn upload_reply(raw: &str) -> (r: Result<UploadedFile, String>)
    ensures
        match json_read(raw@) {
            Err(e) => r is Err && r->Err_0@ == "failed to parse upload response: "@ + e,
            Ok(reply) => {
                let name = upload_member(reply, "name"@);
                let uri = upload_member(reply, "uri"@);
                let state = upload_member(reply, "state"@);
                match r {
                    Ok(f) => name == Some(f.name@) && uri == Some(f.uri@) && f.state@ == or_empty(
                        state,
                    ),
                    Err(e) => if name is None {
                        e@ == "upload response missing file name"@
                    } else {
                        uri is None && e@ == "upload response missing file uri"@
                    },
                }
            },
        },
{
    match parse(raw) {
        Ok(v) => read_upload(&v),
        Err(e) => Err("failed to parse upload response: ".to_owned().concat(e.as_str())),
    }
}

/// What the reply to a look at an uploaded file gives: its state, or the text of an error.
pub fn file_state_reply(raw: &str) -> (r: Result<String, String>)
    ensures
        match json_read(raw@) {
            Err(e) => r is Err && r->Err_0@ == "failed to parse file status: "@ + e,
            Ok(reply) => r is Ok && r->Ok_0@ == or_empty(reply.text_at("state"@)),
        },
{
    match parse(raw) {
        Ok(v) => match text_member(&v, "state") {
            Some(s) => Ok(s),
            None => Ok(String::new()),
        },
        Err(e) => Err("failed to parse file status: ".to_owned().concat(e.as_str())),
    }
}

/// How often the state of an uploaded file is looked at, at most.
pub const MAX_UPLOAD_CHECKS: usize = 60;

/// Waiting for an uploaded file to be ready.
pub struct UploadWait {
    pub checks: usize,
}

/// What to do about an uploaded file.
pub enum UploadStep {
    /// Use it.
    Ready,
    /// Give up, with this error.
    Fail(String),
    /// Look at it again after a second.
    Again,
}

impl UploadWait {
    /// Whether the number of looks is within its bound.
    pub open spec fn wf(self) -> bool {
        self.checks <= MAX_UPLOAD_CHECKS
    }

    /// Nothing has been looked at yet.
    pub fn new() -> (r: UploadWait)
        ensures
            r.wf(),
            r.checks == 0,
    {
        UploadWait { checks: 0 }
    }

    /// Look at the state of the file. After `MAX_UPLOAD_CHECKS` looks the
    /// state does not count any more.
    pub fn check(&mut self, state: &str) -> (r: UploadStep)
        requires
            old(self).wf(),
        ensures
            final(self).wf(),
            if old(self).checks == MAX_UPLOAD_CHECKS {
                &&& final(self).checks == old(self).checks
                &&& r matches UploadStep::Fail(e) && e@
                    == "timed out waiting for uploaded file to become ACTIVE"@
            } else {
                &&& final(self).checks == old(self).checks + 1
                &&& match r {
                    UploadStep::Ready => state@ == "ACTIVE"@,
                    UploadStep::Fail(e) => state@ == "FAILED"@ && e@
                        == "uploaded file failed processing"@,
                    UploadStep::Again => state@ != "ACTIVE"@ && state@ != "FAILED"@,
                }
            },
            r is Ready <==> old(self).checks < 60 && state@ == "ACTIVE"@,
            r is Again <==> old(self).checks < 60 && state@ != "ACTIVE"@ && state@ != "FAILED"@,
    {
        proof {
            reveal_strlit("ACTIVE");
            reveal_strlit("FAILED");
            assert("ACTIVE"@[0] != "FAILED"@[0]);
        }
        if self.checks >= MAX_UPLOAD_CHECKS {
            return UploadStep::Fail(
                "timed out waiting for uploaded file to become ACTIVE".to_owned(),
            );
        }
        self.checks = self.checks + 1;
        if same(state, "ACTIVE") {
            UploadStep::Ready
        } else if same(state, "FAILED") {
            UploadStep::Fail("uploaded file failed processing".to_owned())
        } else {
            UploadStep::Again
        }
    }
}

/// The key is the first that is there and not blank; where none is, there is no
/// key.
pub proof fn law_the_first_key_that_is_set_is_used(keys: Seq<Option<Seq<char>>>, i: int)
    requires
        0 <= i <= keys.len(),
        forall|k: int|
            0 <= k < i ==> #[trigger] keys[k] is None || trimmed(keys[k]->0).len() == 0,
    ensures
        i == keys.len() ==> first_key(keys) is None,
        i < keys.len() && keys[i] is Some && trimmed(keys[i]->0).len() > 0 ==> first_key(keys)
            == keys[i],
    decreases i,
{
    if i < keys.len() && keys[i] is Some {
        lemma_blank_trimmed(keys[i]->0);
    }
    if i > 0 {
        if keys[0] is Some {
            lemma_blank_trimmed(keys[0]->0);
        }
        let rest = keys.drop_first();
        assert forall|k: int| 0 <= k < i - 1 implies #[trigger] rest[k] is None || trimmed(
            rest[k]->0,
        ).len() == 0 by {
            assert(rest[k] == keys[k + 1]);
        }
        law_the_first_key_that_is_set_is_used(rest, i - 1);
    }
}

/// The model is sent the whole transcript, and all of the notes before it where
/// they are not blank.
pub proof fn law_the_model_sees_everything(transcript: Seq<char>, notes: Seq<char>)
    ensures
        suggestion_text(transcript, Seq::empty()) == "Live meeting transcript so far:\n\n"@
            + transcript + "\n\nSuggest up to 3 questions the user might want to ask next."@,
        trimmed(notes).len() == 0 ==> suggestion_text(transcript, notes) == suggestion_text(
            transcript,
            Seq::empty(),
        ),
        trimmed(notes).len() > 0 ==> suggestion_text(transcript, notes)
            == "The user's own notes so far:\n\n"@ + notes + "\n\n"@ + suggestion_text(
            transcript,
            Seq::empty(),
        ),
{
    lemma_blank_trimmed(notes);
    assert(is_blank(Seq::empty()));
    let alone = "Live meeting transcript so far:\n\n"@ + transcript
        + "\n\nSuggest up to 3 questions the user might want to ask next."@;
    assert(suggestion_text(transcript, Seq::empty()) =~= alone);
    if is_blank(notes) {
        assert(suggestion_text(transcript, notes) =~= alone);
    } else {
        assert(suggestion_text(transcript, notes) =~= "The user's own notes so far:\n\n"@ + notes
            + "\n\n"@ + alone);
    }
}

proof fn lemma_first_text_in_parts(parts: Seq<Part>, j: int)
    requires
        0 <= j <= parts.len(),
        forall|k: int| 0 <= k < j ==> (#[trigger] parts[k]).text is None,
    ensures
        j == parts.len() ==> text_in_parts(parts) is None,
        j < parts.len() && parts[j].text is Some ==> text_in_parts(parts) == Some(
            parts[j].text->0@,
        ),
    decreases j,
{
    if j > 0 {
        let rest = parts.drop_first();
        assert(parts[0].text is None);
        assert forall|k: int| 0 <= k < j - 1 implies (#[trigger] rest[k]).text is None by {
            assert(rest[k] == parts[k + 1]);
        }
        lemma_first_text_in_parts(rest, j - 1);
    }
}

/// A reply says what the first part with text says, of the first candidate that
/// has one; where no candidate has one, it says nothing.
pub proof fn law_the_first_text_is_the_reply(candidates: Seq<Candidate>, i: int, j: int)
    requires
        0 <= i <= candidates.len(),
        forall|c: int, k: int|
            0 <= c < i && 0 <= k < candidates[c].content.parts@.len()
                ==> (#[trigger] candidates[c].content.parts@[k]).text is None,
    ensures
        i == candidates.len() ==> text_in_candidates(candidates) is None,
        i < candidates.len() && 0 <= j < candidates[i].content.parts@.len()
            && candidates[i].content.parts@[j].text is Some && (forall|k: int|
            0 <= k < j ==> (#[trigger] candidates[i].content.parts@[k]).text is None)
            ==> text_in_candidates(candidates) == Some(candidates[i].content.parts@[j].text->0@),
    decreases i,
{
    if i == 0 {
        if candidates.len() > 0 && 0 <= j < candidates[0].content.parts@.len()
            && candidates[0].content.parts@[j].text is Some && (forall|k: int|
            0 <= k < j ==> (#[trigger] candidates[0].content.parts@[k]).text is None) {
            lemma_first_text_in_parts(candidates[0].content.parts@, j);
        }
    } else {
        let rest = candidates.drop_first();
        let parts = candidates[0].content.parts@;
        assert forall|k: int| 0 <= k < parts.len() implies (#[trigger] parts[k]).text is None by {
            assert(candidates[0].content.parts@[k].text is None);
        }
        lemma_first_text_in_parts(parts, parts.len() as int);
        assert forall|c: int, k: int|
            0 <= c < i - 1 && 0 <= k < rest[c].content.parts@.len() implies (
        #[trigger] rest[c].content.parts@[k]).text is None by {
            assert(rest[c] == candidates[c + 1]);
            assert(candidates[c + 1].content.parts@[k].text is None);
        }
        law_the_first_text_is_the_reply(rest, i - 1, j);
    }
}

/// Three questions are shown at most, and fewer only where fewer were given.
pub proof fn law_three_questions_are_shown(given: nat)
    ensures
        given <= 3 ==> questions_shown(given) == given,
        given >= 3 ==> questions_shown(given) == 3,
{
}

/// What may be taken off the front of a title: white space, quotes and labels,
/// in any order.
pub open spec fn is_wrapping(s: Seq<char>) -> bool
    decreases s.len(),
{
    ||| s.len() == 0
    ||| s.len() > 0 && (is_white(s[0]) || s[0] == '"') && is_wrapping(s.drop_first())
    ||| s.len() >= 6 && s.take(6) == "Title:"@ && is_wrapping(s.skip(6))
}

/// What may be taken off the end of a title: white space and quotes.
pub open spec fn is_closing(s: Seq<char>) -> bool {
    forall|i: int| 0 <= i < s.len() ==> is_white(#[trigger] s[i]) || s[i] == '"'
}

proof fn lemma_wrapping_goes_on(a: Seq<char>, b: Seq<char>)
    requires
        is_wrapping(a),
        is_wrapping(b),
    ensures
        is_wrapping(a + b),
    decreases a.len(),
{
    let s = a + b;
    if a.len() == 0 {
        assert(s =~= b);
    } else if (is_white(a[0]) || a[0] == '"') && is_wrapping(a.drop_first()) {
        lemma_wrapping_goes_on(a.drop_first(), b);
        assert(s.drop_first() =~= a.drop_first() + b);
    } else {
        lemma_wrapping_goes_on(a.skip(6), b);
        assert(s.take(6) =~= a.take(6));
        assert(s.skip(6) =~= a.skip(6) + b);
    }
}

proof fn lemma_closing_wraps(s: Seq<char>)
    requires
        is_closing(s),
    ensures
        is_wrapping(s),
    decreases s.len(),
{
    if s.len() > 0 {
        let t = s.drop_first();
        assert forall|i: int| 0 <= i < t.len() implies is_white(#[trigger] t[i]) || t[i]
            == '"' by {
            assert(t[i] == s[i + 1]);
        }
        lemma_closing_wraps(t);
    }
}

proof fn lemma_closing_goes_on(a: Seq<char>, b: Seq<char>)
    requires
        is_closing(a),
        is_closing(b),
    ensures
        is_closing(a + b),
{
    let s = a + b;
    assert forall|i: int| 0 <= i < s.len() implies is_white(#[trigger] s[i]) || s[i] == '"' by {
        if i < a.len() {
            assert(s[i] == a[i]);
        } else {
            assert(s[i] == b[i - a.len()]);
        }
    }
}

/// `inner` with what was taken off around it.
spec fn wraps(outer: Seq<char>, front: Seq<char>, inner: Seq<char>, back: Seq<char>) -> bool {
    outer == front + inner + back && is_wrapping(front) && is_closing(back)
}

proof fn lemma_wraps_within(
    outer: Seq<char>,
    l1: Seq<char>,
    middle: Seq<char>,
    r1: Seq<char>,
    l2: Seq<char>,
    inner: Seq<char>,
    r2: Seq<char>,
)
    requires
        wraps(outer, l1, middle, r1),
        wraps(middle, l2, inner, r2),
    ensures
        wraps(outer, l1 + l2, inner, r2 + r1),
{
    lemma_wrapping_goes_on(l1, l2);
    lemma_closing_goes_on(r2, r1);
    assert(outer =~= (l1 + l2) + inner + (r2 + r1));
}

proof fn lemma_trimming_unwraps(s: Seq<char>) -> (ends: (Seq<char>, Seq<char>))
    ensures
        wraps(s, ends.0, trimmed(s), ends.1),
{
    let (l, r) = lemma_trimmed_parts(s);
    lemma_closing_wraps(l);
    (l, r)
}

proof fn lemma_label_unwraps(s: Seq<char>) -> (label: Seq<char>)
    ensures
        wraps(s, label, without_label(s), Seq::empty()),
{
    reveal_strlit("Title:");
    let rest = without_label(s);
    let label = s.take(s.len() - rest.len());
    if rest.len() < s.len() {
        assert(label =~= "Title:"@);
        assert(label.take(6) =~= label);
        assert(label.skip(6) =~= Seq::empty());
        assert(is_wrapping(label.skip(6)));
    }
    assert(s =~= label + rest + Seq::empty());
    label
}

proof fn lemma_peeled_parts(line: Seq<char>) -> (ends: (Seq<char>, Seq<char>))
    ensures
        wraps(line, ends.0, peeled(line), ends.1),
{
    let none = Seq::<char>::empty();
    let a = trimmed(line);
    let b = without_label(a);
    let c = trimmed(b);
    let d = trimmed_of(c, '"');
    let (l1, r1) = lemma_trimming_unwraps(line);
    let label = lemma_label_unwraps(a);
    lemma_wraps_within(line, l1, a, r1, label, b, none);
    let (l2, r2) = lemma_trimming_unwraps(b);
    lemma_wraps_within(line, l1 + label, b, none + r1, l2, c, r2);
    let (l3, r3) = lemma_trimmed_of_parts(c, '"');
    lemma_closing_wraps(l3);
    let f = l1 + label + l2;
    let g = r2 + (none + r1);
    lemma_wraps_within(line, f, c, g, l3, d, r3);
    let (l4, r4) = lemma_trimming_unwraps(d);
    lemma_wraps_within(line, f + l3, d, r3 + g, l4, peeled(line), r4);
    (f + l3 + l4, r4 + (r3 + g))
}

proof fn lemma_bared_parts(line: Seq<char>) -> (ends: (Seq<char>, Seq<char>))
    ensures
        wraps(line, ends.0, bared(line), ends.1),
    decreases line.len(),
{
    let (l1, r1) = lemma_peeled_parts(line);
    let inner = peeled(line);
    if inner.len() < line.len() {
        let (l2, r2) = lemma_bared_parts(inner);
        lemma_wraps_within(line, l1, inner, r1, l2, bared(line), r2);
        (l1 + l2, r2 + r1)
    } else {
        (l1, r1)
    }
}

/// A tidied title is the first line of what the model gave, whole but for the
/// labels, quotes and white space in front of it and the quotes and white space
/// behind it.
pub proof fn law_tidying_takes_only_the_wrapping(s: Seq<char>) -> (ends: (Seq<char>, Seq<char>))
    ensures
        line_first(trimmed(s)) == ends.0 + tidy_title(s) + ends.1,
        is_wrapping(ends.0),
        is_closing(ends.1),
{
    lemma_bared_parts(line_first(trimmed(s)))
}

/// A title that is tidy stays as it is, whatever white space the model put
/// around it.
pub proof fn law_a_tidy_title_is_kept(a: Seq<char>, title: Seq<char>, b: Seq<char>)
    requires
        is_blank(a),
        is_blank(b),
        !title.contains('\n'),
        !"Title:"@.is_prefix_of(title),
        title.len() > 0 ==> {
            &&& title[0] != '"' && title.last() != '"'
            &&& !is_white(title[0]) && !is_white(title.last())
        },
    ensures
        tidy_title(a + title + b) == title,
{
    let none = Seq::<char>::empty();
    law_trimming_takes_the_white_ends(a, title, b);
    assert forall|i: int| 0 <= i < title.len() implies #[trigger] title[i] != '\n' by {
        assert(title.contains(title[i]));
    }
    law_first_line_ends_at_the_line_feed(title, none);
    assert(title =~= none + title + none);
    law_trimming_takes_the_white_ends(none, title, none);
    law_trimming_takes_the_character(none, title, none, '"');
    assert(peeled(title) == title);
}

/// The reply to an upload tells of the file under `file`.
pub proof fn law_an_upload_tells_of_its_file(
    reply: Map<Seq<char>, Json>,
    file: Map<Seq<char>, Json>,
    key: Seq<char>,
    text: Seq<char>,
)
    ensures
        !reply.contains_key("file"@) ==> upload_member(Json::Object(reply), key) is None,
        reply.contains_key("file"@) && reply["file"@] == Json::Object(file) ==> {
            &&& file.contains_key(key) && file[key] == Json::Text(text) ==> upload_member(
                Json::Object(reply),
                key,
            ) == Some(text)
            &&& !file.contains_key(key) ==> upload_member(Json::Object(reply), key) is None
        },
{
}

} // verus!
