//! The export of a meeting: a Markdown document and the recorded audio.

use vstd::prelude::*;
use vstd::string::StrSliceExecFns;
use vstd::utf8::{encode_utf8, is_ascii_chars, is_ascii_chars_encode_utf8};

use crate::meeting::MeetingDetail;
use crate::suggestions::batch_texts;
use crate::text::{
    blank, byte_len, cut_to_bytes, first_chars, fitting, is_blank, is_white, law_as_much_as_fits,
    law_occurring_is_standing_within, law_trimming_takes_the_white_end,
    law_trimming_takes_the_white_ends, lemma_blank_trimmed, lemma_char_width, lemma_fitting,
    lemma_fitting_whole, lemma_trimmed_end, lemma_trimmed_ends, lemma_trimmed_is_part, occurs_in,
    same, take_chars, texts, trim, trim_end, trimmed, trimmed_end,
};

verus! {

/// What stands in a section without contents.
pub const NOTHING: &'static str = "_(none)_";

/// The number of characters of a title that go into a file name.
pub const MAX_NAME_CHARS: usize = 200;

/// The number of bytes that a file name takes, at most: room is left for the
/// suffix `.md` where a name may take 255.
pub const MAX_NAME_BYTES: usize = 252;

/// What a file name falls back to when a title leaves nothing of it.
pub const FALLBACK_NAME: &'static str = "meeting";

/// The contents of a section.
pub open spec fn section_text(body: Seq<char>) -> Seq<char> {
    if is_blank(body) {
        NOTHING@
    } else {
        trimmed(body)
    }
}

/// All questions, batch after batch.
pub open spec fn all_questions(batches: Seq<Seq<Seq<char>>>) -> Seq<Seq<char>>
    decreases batches.len(),
{
    if batches.len() == 0 {
        Seq::empty()
    } else {
        all_questions(batches.drop_last()) + batches.last()
    }
}

/// A list without its repetitions: each item stands where it occurs first.
pub open spec fn distinct(list: Seq<Seq<char>>) -> Seq<Seq<char>>
    decreases list.len(),
{
    if list.len() == 0 {
        Seq::empty()
    } else if list.drop_last().contains(list.last()) {
        distinct(list.drop_last())
    } else {
        distinct(list.drop_last()).push(list.last())
    }
}

/// A list with one bullet for each item.
pub open spec fn bullets(list: Seq<Seq<char>>) -> Seq<char>
    decreases list.len(),
{
    if list.len() == 0 {
        Seq::empty()
    } else {
        bullets(list.drop_last()) + "- "@ + list.last() + "\n"@
    }
}

/// The section of suggested questions.
pub open spec fn questions_text(batches: Seq<Seq<Seq<char>>>) -> Seq<char> {
    if all_questions(batches).len() == 0 {
        NOTHING@
    } else {
        trimmed_end(bullets(distinct(all_questions(batches))))
    }
}

/// The Markdown document of a meeting.
pub open spec fn markdown(
    title: Seq<char>,
    notes: Seq<char>,
    transcript: Seq<char>,
    batches: Seq<Seq<Seq<char>>>,
) -> Seq<char> {
    "# "@ + title + "\n\n## Notes\n\n"@ + section_text(notes) + "\n\n## Transcript\n\n"@
        + section_text(transcript) + "\n\n## Suggested questions\n\n"@ + questions_text(batches)
        + "\n"@
}

/// A list without its repetitions has none, and holds the items that the list
/// holds.
pub proof fn law_questions_are_listed_once(list: Seq<Seq<char>>)
    ensures
        distinct(list).no_duplicates(),
        forall|q: Seq<char>| #[trigger] distinct(list).contains(q) <==> list.contains(q),
    decreases list.len(),
{
    if list.len() > 0 {
        let front = list.drop_last();
        law_questions_are_listed_once(front);
        assert(list =~= front.push(list.last()));
        let d = distinct(front);
        assert forall|q: Seq<char>| #[trigger] distinct(list).contains(q) <==> list.contains(q) by {
            assert(list.contains(q) <==> front.contains(q) || q == list.last()) by {
                if front.contains(q) {
                    let i = choose|i: int| 0 <= i < front.len() && front[i] == q;
                    assert(list[i] == q);
                }
                if q == list.last() {
                    assert(list[list.len() - 1] == q);
                }
                if list.contains(q) && q != list.last() {
                    let i = choose|i: int| 0 <= i < list.len() && list[i] == q;
                    assert(front[i] == q);
                }
            }
            assert(d.contains(q) <==> front.contains(q));
            if !front.contains(list.last()) {
                let e = d.push(list.last());
                if d.contains(q) {
                    let i = choose|i: int| 0 <= i < d.len() && d[i] == q;
                    assert(e[i] == q);
                }
                assert(e[d.len() as int] == list.last());
                if e.contains(q) && q != list.last() {
                    let i = choose|i: int| 0 <= i < e.len() && e[i] == q;
                    assert(d[i] == q);
                }
            }
        }
        if !front.contains(list.last()) {
            let e = d.push(list.last());
            assert(!d.contains(list.last()));
            assert forall|i: int, j: int|
                0 <= i < e.len() && 0 <= j < e.len() && i != j implies e[i] != e[j] by {
                if i < d.len() && j < d.len() {
                    assert(d[i] != d[j]);
                } else if i < d.len() {
                    assert(d.contains(d[i]));
                } else {
                    assert(d.contains(d[j]));
                }
            }
        }
    }
}

fn section(body: &str) -> (r: String)
    ensures
        r@ == section_text(body@),
{
    if blank(body) {
        NOTHING.to_owned()
    } else {
        trim(body)
    }
}

fn listed(list: &Vec<String>, item: &str) -> (r: bool)
    ensures
        r == texts(list@).contains(item@),
{
    let mut i: usize = 0;
    while i < list.len()
        invariant
            i <= list@.len(),
            forall|k: int| 0 <= k < i ==> #[trigger] texts(list@)[k] != item@,
        decreases list@.len() - i,
    {
        assert(texts(list@)[i as int] == list@[i as int]@);
        if same(list[i].as_str(), item) {
            return true;
        }
        i = i + 1;
    }
    false
}

proof fn lemma_distinct_push(list: Seq<Seq<char>>, q: Seq<char>)
    ensures
        distinct(list.push(q)) == (if distinct(list).contains(q) {
            distinct(list)
        } else {
            distinct(list).push(q)
        }),
{
    assert(list.push(q).drop_last() =~= list);
    law_questions_are_listed_once(list);
}

fn questions_section(batches: &Vec<Vec<String>>) -> (r: String)
    ensures
        r@ == questions_text(batch_texts(batches@)),
{
    let ghost given = batch_texts(batches@);
    let mut seen: Vec<String> = Vec::new();
    let mut out: String = String::new();
    let mut i: usize = 0;
    proof {
        assert(given.take(0) =~= Seq::empty());
        assert(all_questions(given.take(0)) =~= Seq::empty());
        assert(texts(seen@) =~= distinct(all_questions(given.take(0))));
        assert(bullets(texts(seen@)) =~= Seq::empty());
    }
    while i < batches.len()
        invariant
            i <= batches@.len(),
            given == batch_texts(batches@),
            texts(seen@) == distinct(all_questions(given.take(i as int))),
            out@ == bullets(texts(seen@)),
        decreases batches@.len() - i,
    {
        let batch: &Vec<String> = &batches[i];
        let ghost before = all_questions(given.take(i as int));
        let ghost qs = texts(batch@);
        proof {
            assert(given[i as int] == qs);
            assert(before + qs.take(0) =~= before);
        }
        let mut j: usize = 0;
        while j < batch.len()
            invariant
                j <= batch@.len(),
                qs == texts(batch@),
                texts(seen@) == distinct(before + qs.take(j as int)),
                out@ == bullets(texts(seen@)),
            decreases batch@.len() - j,
        {
            let q: &String = &batch[j];
            let ghost sofar = before + qs.take(j as int);
            proof {
                assert(qs[j as int] == q@);
                assert(before + qs.take(j + 1) =~= sofar.push(q@));
                lemma_distinct_push(sofar, q@);
            }
            if !listed(&seen, q.as_str()) {
                let ghost had = texts(seen@);
                seen.push(q.clone());
                out.append("- ");
                out.append(q.as_str());
                out.append("\n");
                proof {
                    assert(texts(seen@) =~= had.push(q@));
                    assert(had.push(q@).drop_last() =~= had);
                }
            }
            j = j + 1;
        }
        i = i + 1;
        proof {
            assert(qs.take(qs.len() as int) =~= qs);
            assert(given.take(i as int).drop_last() =~= given.take(i - 1));
            assert(given.take(i as int).last() == qs);
        }
    }
    proof {
        assert(given.take(given.len() as int) =~= given);
        let list = all_questions(given);
        law_questions_are_listed_once(list);
        if list.len() > 0 {
            assert(list.contains(list[0]));
            assert(distinct(list).contains(list[0]));
        }
        assert(texts(seen@).len() == seen@.len());
    }
    if seen.len() == 0 {
        NOTHING.to_owned()
    } else {
        trim_end(out.as_str())
    }
}

/// Render a meeting as a Markdown document with its notes, its transcript and
/// the suggested questions, each question once.
pub fn render_markdown(d: &MeetingDetail) -> (r: String)
    ensures
        r@ == markdown(d.title@, d.notes@, d.transcript@, batch_texts(d.suggestions@)),
{
    let notes: String = section(d.notes.as_str());
    let transcript: String = section(d.transcript.as_str());
    let questions: String = questions_section(&d.suggestions);
    let mut r: String = "# ".to_owned();
    r.append(d.title.as_str());
    r.append("\n\n## Notes\n\n");
    r.append(notes.as_str());
    r.append("\n\n## Transcript\n\n");
    r.append(transcript.as_str());
    r.append("\n\n## Suggested questions\n\n");
    r.append(questions.as_str());
    r.append("\n");
    r
}

/// Whether Unicode counts a character as a letter or a number, as
/// `char::is_alphanumeric` says.
pub uninterp spec fn alphanumeric(c: char) -> bool;

/// An ASCII letter or digit.
pub open spec fn ascii_alphanumeric(c: char) -> bool {
    'a' <= c <= 'z' || 'A' <= c <= 'Z' || '0' <= c <= '9'
}

/// `char::is_alphanumeric` depends on the character alone; among the ASCII
/// characters it holds of the letters and the digits.
#[verifier::external_body]
fn is_alphanumeric(c: char) -> (r: bool)
    ensures
        r == alphanumeric(c),
        c as u32 <= 0x7f ==> r == ascii_alphanumeric(c),
{
    c.is_alphanumeric()
}

/// What stands for a character in a file name, given which characters are
/// letters and numbers.
pub open spec fn name_char(c: char, is_word: spec_fn(char) -> bool) -> char {
    if is_word(c) || c == ' ' || c == '-' || c == '_' {
        c
    } else {
        '_'
    }
}

/// What a title gives as a file name: of its first characters, those that are
/// letters, numbers, spaces, hyphens or underscores, with an underscore for
/// each other one; as many of these as fit, without white space at the ends.
pub open spec fn name_of(title: Seq<char>, is_word: spec_fn(char) -> bool) -> Seq<char> {
    let start = first_chars(title, MAX_NAME_CHARS as int);
    let whole = trimmed(start.map_values(|c: char| name_char(c, is_word)));
    let name = trimmed_end(whole.take(fitting(whole, MAX_NAME_BYTES as int) as int));
    if name.len() == 0 {
        FALLBACK_NAME@
    } else {
        name
    }
}

/// What a title gives as a file name.
pub open spec fn file_name(title: Seq<char>) -> Seq<char> {
    name_of(title, |c: char| alphanumeric(c))
}

/// What an ASCII title gives as a file name.
pub open spec fn ascii_file_name(title: Seq<char>) -> Seq<char> {
    name_of(title, |c: char| ascii_alphanumeric(c))
}

/// Make a title a file name. The name is not empty and not too long, and its
/// ASCII characters are letters, digits, spaces, hyphens and underscores: it
/// has no path separator and no dot.
pub fn sanitize_filename(name: &str) -> (r: String)
    ensures
        r@ == file_name(name@),
        is_ascii_chars(name@) ==> r@ == ascii_file_name(name@),
        byte_len(r@) + 3 <= 255,
        0 < r@.len() <= MAX_NAME_CHARS,
        forall|i: int|
            0 <= i < r@.len() && (#[trigger] r@[i]) as u32 <= 0x7f ==> ascii_alphanumeric(r@[i])
                || r@[i] == ' ' || r@[i] == '-' || r@[i] == '_',
{
    let start: String = take_chars(name, MAX_NAME_CHARS);
    let ghost word = |c: char| alphanumeric(c);
    let ghost ascii = |c: char| ascii_alphanumeric(c);
    let ghost wanted = start@.map_values(|c: char| name_char(c, word));
    let ghost plain = start@.map_values(|c: char| name_char(c, ascii));
    let mut cleaned: String = String::new();
    for c in it: start.as_str().chars()
        invariant
            it.seq() == start@,
            word == (|c: char| alphanumeric(c)),
            ascii == (|c: char| ascii_alphanumeric(c)),
            wanted == start@.map_values(|c: char| name_char(c, word)),
            plain == start@.map_values(|c: char| name_char(c, ascii)),
            cleaned@ == wanted.take(it.index() as int),
            is_ascii_chars(start@) ==> cleaned@ == plain.take(it.index() as int),
            forall|i: int|
                0 <= i < cleaned@.len() && (#[trigger] cleaned@[i]) as u32 <= 0x7f
                    ==> ascii_alphanumeric(cleaned@[i]) || cleaned@[i] == ' ' || cleaned@[i] == '-'
                    || cleaned@[i] == '_',
    {
        let kept: char = if is_alphanumeric(c) || c == ' ' || c == '-' || c == '_' {
            c
        } else {
            '_'
        };
        proof {
            assert(start@[it.index() as int] == c);
            assert(wanted[it.index() as int] == kept);
            if is_ascii_chars(start@) {
                assert(plain[it.index() as int] == kept);
            }
        }
        cleaned.push(kept);
        proof {
            assert(cleaned@ =~= wanted.take(it.index() + 1));
            if is_ascii_chars(start@) {
                assert(cleaned@ =~= plain.take(it.index() + 1));
            }
        }
    }
    proof {
        assert(cleaned@ =~= wanted);
        if is_ascii_chars(name@) {
            assert forall|i: int| 0 <= i < start@.len() implies '\0' <= #[trigger] start@[i]
                <= '\u{7f}' by {
                assert(start@[i] == name@[i]);
            }
            assert(cleaned@ =~= plain);
        }
        lemma_trimmed_is_part(cleaned@);
    }
    let whole: String = trim(cleaned.as_str());
    let cut: String = cut_to_bytes(whole.as_str(), MAX_NAME_BYTES);
    let kept: String = trim_end(cut.as_str());
    proof {
        lemma_fitting(whole@, MAX_NAME_BYTES as int);
        lemma_trimmed_end(cut@);
        assert forall|i: int| 0 <= i < kept@.len() implies cleaned@.contains(
            #[trigger] kept@[i],
        ) by {
            assert(kept@[i] == whole@[i]);
        }
    }
    if kept.as_str().unicode_len() == 0 {
        proof {
            reveal_strlit("meeting");
            assert(is_ascii_chars(FALLBACK_NAME@));
            is_ascii_chars_encode_utf8(FALLBACK_NAME@);
        }
        FALLBACK_NAME.to_owned()
    } else {
        kept
    }
}

/// A name that was made of a title is made into itself, whatever counts as a
/// letter or a number besides the letters of the fallback.
pub proof fn law_file_names_are_clean(title: Seq<char>, is_word: spec_fn(char) -> bool)
    requires
        forall|i: int| 0 <= i < FALLBACK_NAME@.len() ==> is_word(#[trigger] FALLBACK_NAME@[i]),
    ensures
        name_of(name_of(title, is_word), is_word) == name_of(title, is_word),
{
    let start = first_chars(title, MAX_NAME_CHARS as int);
    let mapped = start.map_values(|c: char| name_char(c, is_word));
    let whole = trimmed(mapped);
    let cut = whole.take(fitting(whole, MAX_NAME_BYTES as int) as int);
    let r = name_of(title, is_word);
    lemma_trimmed_is_part(mapped);
    lemma_trimmed_ends(mapped);
    lemma_fitting(whole, MAX_NAME_BYTES as int);
    lemma_trimmed_end(cut);
    if trimmed_end(cut).len() == 0 {
        reveal_strlit("meeting");
        assert(is_ascii_chars(FALLBACK_NAME@));
        is_ascii_chars_encode_utf8(FALLBACK_NAME@);
        assert forall|i: int| 0 <= i < r.len() implies name_char(#[trigger] r[i], is_word)
            == r[i] by {
            assert(is_word(FALLBACK_NAME@[i]));
        }
        assert(r[0] == 'm' && r.last() == 'g');
    } else {
        assert(r[0] == whole[0]);
        assert forall|i: int| 0 <= i < r.len() implies name_char(#[trigger] r[i], is_word)
            == r[i] by {
            assert(r[i] == whole[i]);
            let k = choose|k: int| 0 <= k < mapped.len() && mapped[k] == whole[i];
            assert(mapped[k] == name_char(start[k], is_word));
        }
    }
    assert(first_chars(r, MAX_NAME_CHARS as int) == r);
    assert(r.map_values(|c: char| name_char(c, is_word)) =~= r);
    assert(trimmed(r) == r);
    lemma_fitting_whole(r, MAX_NAME_BYTES as int);
    assert(r.take(r.len() as int) =~= r);
    assert(trimmed_end(r) == r);
}

/// A file of an export.
pub struct ExportEntry {
    pub name: String,
    pub bytes: Vec<u8>,
}

/// The files of the export of a meeting: the document, named after the
/// meeting, and the recorded audio, if there is any.
pub fn export_entries(d: &MeetingDetail, audio: Option<Vec<u8>>) -> (r: Vec<ExportEntry>)
    ensures
        r@.len() == (if audio is Some {
            2int
        } else {
            1int
        }),
        r@[0].name@ == file_name(d.title@) + ".md"@,
        r@[0].bytes@ == encode_utf8(
            markdown(d.title@, d.notes@, d.transcript@, batch_texts(d.suggestions@)),
        ),
        audio is Some ==> r@[1].name@ == "audio.wav"@ && r@[1].bytes == audio->0,
{
    let document: String = render_markdown(d);
    let mut name: String = sanitize_filename(d.title.as_str());
    name.append(".md");
    let mut r: Vec<ExportEntry> = Vec::new();
    r.push(ExportEntry { name, bytes: document.as_str().as_bytes_vec() });
    if let Some(bytes) = audio {
        r.push(ExportEntry { name: "audio.wav".to_owned(), bytes });
    }
    r
}

/// The document holds the title, the notes and the transcript whole, each under
/// its heading and without the white space around it; a section with nothing in
/// it says so.
pub proof fn law_the_document_holds_everything(
    title: Seq<char>,
    notes: Seq<char>,
    transcript: Seq<char>,
    batches: Seq<Seq<Seq<char>>>,
)
    ensures
        ({
            let noted = if trimmed(notes).len() > 0 {
                trimmed(notes)
            } else {
                "_(none)_"@
            };
            let said = if trimmed(transcript).len() > 0 {
                trimmed(transcript)
            } else {
                "_(none)_"@
            };
            markdown(title, notes, transcript, batches) == "# "@ + title + "\n\n## Notes\n\n"@
                + noted + "\n\n## Transcript\n\n"@ + said + "\n\n## Suggested questions\n\n"@
                + questions_text(batches) + "\n"@
        }),
{
    lemma_blank_trimmed(notes);
    lemma_blank_trimmed(transcript);
}

/// The notes and the transcript are in the document, whatever else is.
pub proof fn law_nothing_said_is_missing(
    title: Seq<char>,
    notes: Seq<char>,
    transcript: Seq<char>,
    batches: Seq<Seq<Seq<char>>>,
)
    ensures
        occurs_in(title, markdown(title, notes, transcript, batches)),
        occurs_in(trimmed(notes), markdown(title, notes, transcript, batches)),
        occurs_in(trimmed(transcript), markdown(title, notes, transcript, batches)),
{
    let all = markdown(title, notes, transcript, batches);
    let none = Seq::<char>::empty();
    lemma_blank_trimmed(notes);
    lemma_blank_trimmed(transcript);
    let questions = "\n\n## Suggested questions\n\n"@ + questions_text(batches) + "\n"@;
    let spoken = "\n\n## Transcript\n\n"@ + section_text(transcript) + questions;
    let noted = "\n\n## Notes\n\n"@ + section_text(notes) + spoken;
    assert(all =~= "# "@ + title + noted);
    law_occurring_is_standing_within("# "@, title, noted, all);
    if trimmed(notes).len() > 0 {
        let before = "# "@ + title + "\n\n## Notes\n\n"@;
        assert(all =~= before + trimmed(notes) + spoken);
        law_occurring_is_standing_within(before, trimmed(notes), spoken, all);
    } else {
        assert(all =~= none + trimmed(notes) + all);
        law_occurring_is_standing_within(none, trimmed(notes), all, all);
    }
    if trimmed(transcript).len() > 0 {
        let before = "# "@ + title + "\n\n## Notes\n\n"@ + section_text(notes)
            + "\n\n## Transcript\n\n"@;
        assert(all =~= before + trimmed(transcript) + questions);
        law_occurring_is_standing_within(before, trimmed(transcript), questions, all);
    } else {
        assert(all =~= none + trimmed(transcript) + all);
        law_occurring_is_standing_within(none, trimmed(transcript), all, all);
    }
}

/// The questions of the batches, one batch after the other, all of them.
pub proof fn law_batches_are_taken_in_order(
    a: Seq<Seq<Seq<char>>>,
    batch: Seq<Seq<char>>,
    b: Seq<Seq<Seq<char>>>,
)
    ensures
        all_questions(Seq::empty()).len() == 0,
        all_questions(seq![batch]) == batch,
        all_questions(a + b) == all_questions(a) + all_questions(b),
    decreases b.len(),
{
    assert(seq![batch].drop_last() =~= Seq::empty());
    assert(all_questions(seq![batch].drop_last()) =~= Seq::empty());
    assert(seq![batch].last() == batch);
    assert(all_questions(seq![batch]) =~= batch);
    if b.len() == 0 {
        assert(a + b =~= a);
        assert(all_questions(a) + all_questions(b) =~= all_questions(a));
    } else {
        law_batches_are_taken_in_order(a, batch, b.drop_last());
        assert((a + b).drop_last() =~= a + b.drop_last());
        assert((a + b).last() == b.last());
        assert(all_questions(a + b) =~= all_questions(a) + all_questions(b));
    }
}

/// A question is listed where it is asked first: behind those that were asked
/// before, unless it is one of them.
pub proof fn law_questions_stand_where_they_came(list: Seq<Seq<char>>, question: Seq<char>)
    ensures
        distinct(Seq::empty()).len() == 0,
        list.contains(question) ==> distinct(list.push(question)) == distinct(list),
        !list.contains(question) ==> distinct(list.push(question)) == distinct(list).push(question),
{
    assert(list.push(question).drop_last() =~= list);
}

/// Every question has a line with a bullet of its own.
pub proof fn law_each_question_has_its_line(list: Seq<Seq<char>>, question: Seq<char>)
    ensures
        bullets(Seq::empty()).len() == 0,
        bullets(list.push(question)) == bullets(list) + "- "@ + question + "\n"@,
{
    assert(list.push(question).drop_last() =~= list);
}

proof fn lemma_bullet(list: Seq<Seq<char>>, k: int) -> (ends: (Seq<char>, Seq<char>))
    requires
        0 <= k < list.len(),
    ensures
        bullets(list) == ends.0 + ("- "@ + list[k]) + ends.1,
    decreases list.len(),
{
    let front = list.drop_last();
    if k == list.len() - 1 {
        assert(bullets(list) =~= bullets(front) + ("- "@ + list[k]) + "\n"@);
        (bullets(front), "\n"@)
    } else {
        let (a, b) = lemma_bullet(front, k);
        let c = b + "- "@ + list.last() + "\n"@;
        assert(front[k] == list[k]);
        assert(bullets(list) =~= a + ("- "@ + list[k]) + c);
        (a, c)
    }
}

/// Every question of every batch is listed; where there is none, the section
/// says so.
pub proof fn law_every_question_is_listed(batches: Seq<Seq<Seq<char>>>, i: int, j: int)
    ensures
        (forall|k: int| 0 <= k < batches.len() ==> (#[trigger] batches[k]).len() == 0)
            ==> questions_text(batches) == "_(none)_"@,
        0 <= i < batches.len() && 0 <= j < batches[i].len() && batches[i][j].len() > 0 && !is_white(
            batches[i][j].last(),
        ) ==> occurs_in("- "@ + batches[i][j], questions_text(batches)),
{
    if forall|k: int| 0 <= k < batches.len() ==> (#[trigger] batches[k]).len() == 0 {
        lemma_no_questions(batches);
    }
    if 0 <= i < batches.len() && 0 <= j < batches[i].len() && batches[i][j].len() > 0 && !is_white(
        batches[i][j].last(),
    ) {
        let q = batches[i][j];
        let all = all_questions(batches);
        lemma_question_is_among(batches, i, j);
        law_questions_are_listed_once(all);
        let list = distinct(all);
        assert(list.contains(q));
        let k = choose|k: int| 0 <= k < list.len() && list[k] == q;
        let (a, b) = lemma_bullet(list, k);
        let s = a + ("- "@ + q) + b;
        reveal_strlit("- ");
        let n = (a.len() + 2 + q.len()) as int;
        assert(s[n - 1] == q.last());
        lemma_trimmed_end_keeps(s, n);
        let kept = trimmed_end(s);
        assert(kept =~= a + ("- "@ + q) + kept.skip(n));
        law_occurring_is_standing_within(a, "- "@ + q, kept.skip(n), kept);
    }
}

proof fn lemma_trimmed_end_keeps(s: Seq<char>, n: int)
    requires
        0 < n <= s.len(),
        !is_white(s[n - 1]),
    ensures
        n <= trimmed_end(s).len() <= s.len(),
        trimmed_end(s) == s.take(trimmed_end(s).len() as int),
    decreases s.len(),
{
    lemma_trimmed_end(s);
    if is_white(s.last()) {
        assert(s.drop_last()[n - 1] == s[n - 1]);
        lemma_trimmed_end_keeps(s.drop_last(), n);
    }
}

proof fn lemma_no_questions(batches: Seq<Seq<Seq<char>>>)
    requires
        forall|k: int| 0 <= k < batches.len() ==> (#[trigger] batches[k]).len() == 0,
    ensures
        all_questions(batches).len() == 0,
    decreases batches.len(),
{
    if batches.len() > 0 {
        let front = batches.drop_last();
        assert forall|k: int| 0 <= k < front.len() implies (#[trigger] front[k]).len() == 0 by {
            assert(front[k] == batches[k]);
        }
        lemma_no_questions(front);
        assert(batches[batches.len() - 1].len() == 0);
    }
}

proof fn lemma_question_is_among(batches: Seq<Seq<Seq<char>>>, i: int, j: int)
    requires
        0 <= i < batches.len(),
        0 <= j < batches[i].len(),
    ensures
        all_questions(batches).contains(batches[i][j]),
    decreases batches.len(),
{
    let front = batches.drop_last();
    let before = all_questions(front);
    let all = all_questions(batches);
    if i == batches.len() - 1 {
        assert(all[before.len() + j] == batches[i][j]);
    } else {
        lemma_question_is_among(front, i, j);
        assert(front[i] == batches[i]);
        let k = choose|k: int| 0 <= k < before.len() && before[k] == batches[i][j];
        assert(all[k] == before[k]);
    }
}

/// In a file name an underscore stands for every character that is not a letter,
/// a number, a space, a hyphen or an underscore; what is behind the two hundredth
/// character does not matter.
pub proof fn law_other_characters_become_underscores(
    a: Seq<char>,
    c: char,
    b: Seq<char>,
    is_word: spec_fn(char) -> bool,
)
    requires
        !is_word(c),
        c != ' ' && c != '-' && c != '_',
    ensures
        name_of(a + seq![c] + b, is_word) == name_of(a + seq!['_'] + b, is_word),
        a.len() >= 200 ==> name_of(a + b, is_word) == name_of(a, is_word),
{
    let f = |x: char| name_char(x, is_word);
    let s = first_chars(a + seq![c] + b, 200);
    let t = first_chars(a + seq!['_'] + b, 200);
    assert(s.map_values(f) =~= t.map_values(f));
    if a.len() >= 200 {
        assert(first_chars(a + b, 200) =~= first_chars(a, 200));
    }
}

/// A title that needs no underscore is the file name, without the white space
/// around it, and cut where it takes more than 252 bytes; a title with nothing
/// in it gives the name `meeting`.
pub proof fn law_a_good_title_is_the_file_name(
    a: Seq<char>,
    text: Seq<char>,
    b: Seq<char>,
    k: int,
    is_word: spec_fn(char) -> bool,
)
    requires
        a.len() + text.len() + b.len() <= 200,
        forall|i: int|
            0 <= i < (a + text + b).len() ==> is_word(#[trigger] (a + text + b)[i]) || (a + text
                + b)[i] == ' ' || (a + text + b)[i] == '-' || (a + text + b)[i] == '_',
        is_blank(a),
        is_blank(b),
        text.len() > 0 ==> !is_white(text[0]) && !is_white(text.last()),
        0 <= k <= text.len(),
        encode_utf8(text.take(k)).len() <= 252,
        k < text.len() ==> encode_utf8(text.take(k + 1)).len() > 252,
    ensures
        text.len() == 0 ==> name_of(a + text + b, is_word) == "meeting"@,
        text.len() > 0 ==> name_of(a + text + b, is_word) == trimmed_end(text.take(k)),
        k == text.len() && k > 0 ==> name_of(a + text + b, is_word) == text,
{
    let title = a + text + b;
    let f = |c: char| name_char(c, is_word);
    assert(first_chars(title, 200) == title);
    assert(title.map_values(f) =~= title);
    law_trimming_takes_the_white_ends(a, text, b);
    law_as_much_as_fits(text, 252, k);
    let cut = text.take(k);
    lemma_trimmed_end(cut);
    if text.len() > 0 {
        if k == 0 {
            assert(text.take(1) =~= seq![text[0]]);
            lemma_char_width(text[0]);
        }
        assert(cut[0] == text[0]);
        if k == text.len() {
            assert(cut =~= text);
            assert(cut =~= cut + Seq::empty());
            law_trimming_takes_the_white_end(cut, Seq::empty());
        }
    } else {
        assert(cut =~= Seq::empty());
    }
}

/// The section lists the questions in the order in which they were asked first,
/// and nothing else: a batch of a new question adds a line at the end, and a
/// batch of a question that was asked before changes nothing.
pub proof fn law_a_new_question_adds_a_line(batches: Seq<Seq<Seq<char>>>, question: Seq<char>)
    ensures
        all_questions(batches).contains(question) ==> questions_text(batches.push(seq![question]))
            == questions_text(batches),
        all_questions(batches).len() == 0 ==> questions_text(batches.push(seq![question]))
            == trimmed_end("- "@ + question + "\n"@),
        all_questions(batches).len() > 0 && !all_questions(batches).contains(question)
            && question.len() > 0 && !is_white(question.last()) ==> exists|lines: Seq<char>|
            {
                &&& questions_text(batches) == trimmed_end(lines)
                &&& questions_text(batches.push(seq![question])) == #[trigger] (lines + "- "@
                    + question)
            },
{
    let all = all_questions(batches);
    let more = batches.push(seq![question]);
    assert(more.drop_last() =~= batches);
    assert(all_questions(more) =~= all.push(question));
    law_questions_stand_where_they_came(all, question);
    let list = distinct(all);
    if !all.contains(question) {
        law_each_question_has_its_line(list, question);
        let lines = bullets(list);
        let s = lines + "- "@ + question + "\n"@;
        if all.len() == 0 {
            assert(list =~= Seq::empty());
            assert(lines =~= Seq::empty());
            assert(s =~= "- "@ + question + "\n"@);
        }
        if question.len() > 0 && !is_white(question.last()) {
            let text = lines + "- "@ + question;
            reveal_strlit("\n");
            assert(text.last() == question.last());
            assert(s =~= text + "\n"@);
            law_trimming_takes_the_white_end(text, "\n"@);
        }
    }
}

/// The file name of a title goes by what Unicode counts as letters and numbers,
/// and by nothing else; that of an ASCII title by the ASCII ones.
pub proof fn law_file_names_go_by_their_letters(title: Seq<char>)
    ensures
        file_name(title) == name_of(title, |c: char| alphanumeric(c)),
        ascii_file_name(title) == name_of(
            title,
            |c: char| 'a' <= c <= 'z' || 'A' <= c <= 'Z' || '0' <= c <= '9',
        ),
{
    assert((|c: char| ascii_alphanumeric(c)) =~= (|c: char|
        'a' <= c <= 'z' || 'A' <= c <= 'Z' || '0' <= c <= '9'));
}

} // verus!
