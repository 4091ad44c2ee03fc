//! Naming a meeting after what was said in it.

use vstd::prelude::*;
use vstd::string::StrSliceExecFns;

use crate::meeting::UNTITLED;
use crate::text::{
    blank, first_chars, is_blank, is_white, lemma_blank_trimmed, lemma_trimmed_ends, opt_chars,
    same, take_chars, trim, trimmed,
};

verus! {

/// How many characters of a meeting are sent to name it.
pub const MAX_TITLE_CONTEXT_CHARS: usize = 6000;

/// Whether a meeting is to be named: its title is known, and stands for none.
pub open spec fn unnamed(title: Option<Seq<char>>) -> bool {
    title matches Some(t) && (t.len() == 0 || t == UNTITLED@)
}

/// Whether a meeting is to be named.
pub fn needs_title(title: &Option<String>) -> (r: bool)
    ensures
        r == unnamed(opt_chars(*title)),
{
    match title {
        Some(t) => t.as_str().unicode_len() == 0 || same(t.as_str(), UNTITLED),
        None => false,
    }
}

/// What a meeting is named after: the transcript, with the notes before it
/// where there are any.
pub open spec fn naming_text(transcript: Seq<char>, notes: Seq<char>) -> Seq<char> {
    if is_blank(notes) {
        transcript
    } else {
        "Notes:\n"@ + notes + "\n\nTranscript:\n"@ + transcript
    }
}

/// The context to send to have a meeting named; none where nothing was said.
pub fn title_context(transcript: &str, notes: &str) -> (r: Option<String>)
    ensures
        match r {
            Some(context) => {
                &&& !is_blank(transcript@)
                &&& context@ == first_chars(
                    naming_text(transcript@, notes@),
                    MAX_TITLE_CONTEXT_CHARS as int,
                )
            },
            None => is_blank(transcript@),
        },
{
    if blank(transcript) {
        return None;
    }
    if blank(notes) {
        return Some(take_chars(transcript, MAX_TITLE_CONTEXT_CHARS));
    }
    let mut all: String = "Notes:\n".to_owned();
    all.append(notes);
    all.append("\n\nTranscript:\n");
    all.append(transcript);
    Some(take_chars(all.as_str(), MAX_TITLE_CONTEXT_CHARS))
}

/// The title to give a meeting: the one that came back, trimmed, unless that is
/// blank.
pub fn accept_title(reply: Result<String, String>) -> (r: Option<String>)
    ensures
        match r {
            Some(title) => reply is Ok && !is_blank(reply->Ok_0@) && title@ == trimmed(
                reply->Ok_0@,
            ),
            None => reply is Err || is_blank(reply->Ok_0@),
        },
{
    match reply {
        Ok(text) => {
            if blank(text.as_str()) {
                None
            } else {
                Some(trim(text.as_str()))
            }
        },
        Err(_) => None,
    }
}

/// A title that a meeting is given is not empty and has no white space around
/// it.
pub proof fn law_given_title_is_trimmed(text: Seq<char>)
    requires
        !is_blank(text),
    ensures
        trimmed(text).len() > 0,
        !is_white(trimmed(text)[0]),
        !is_white(trimmed(text).last()),
{
    lemma_blank_trimmed(text);
    lemma_trimmed_ends(text);
}

/// A meeting is named after all that was said, behind the notes where there are
/// any, as far as six thousand characters go.
pub proof fn law_a_meeting_is_named_after_its_contents(transcript: Seq<char>, notes: Seq<char>)
    ensures
        ({
            let all = if trimmed(notes).len() == 0 {
                transcript
            } else {
                "Notes:\n"@ + notes + "\n\nTranscript:\n"@ + transcript
            };
            let sent = first_chars(naming_text(transcript, notes), MAX_TITLE_CONTEXT_CHARS as int);
            &&& all.len() <= 6_000 ==> sent == all
            &&& all.len() > 6_000 ==> sent == all.take(6_000)
        }),
{
    lemma_blank_trimmed(notes);
}

/// A meeting is named where its title says nothing: it is empty, or the one that
/// every meeting starts with. A title that is not known is left alone.
pub proof fn law_only_unnamed_meetings_are_named(title: Seq<char>)
    ensures
        !unnamed(None),
        unnamed(Some(title)) <==> title == ""@ || title == "Untitled meeting"@,
{
    reveal_strlit("");
    if title.len() == 0 {
        assert(title =~= ""@);
    }
}

} // verus!
