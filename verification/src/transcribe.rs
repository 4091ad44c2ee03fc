//! What a transcription gives back.

use vstd::prelude::*;

use crate::text::{
    is_white, joined, law_occurring_is_standing_within, law_trimming_takes_the_white_ends,
    lemma_trimmed_ends, lemma_trimmed_parts, occurs_in, trim, trimmed,
};

verus! {

/// The text of a piece of audio, and the full name of its language where that
/// is known.
pub struct Transcription {
    pub text: String,
    pub language: Option<String>,
}

/// The segments that could be read, each trimmed and followed by a space.
pub open spec fn spaced(segments: Seq<Option<String>>) -> Seq<char>
    decreases segments.len(),
{
    if segments.len() == 0 {
        Seq::empty()
    } else {
        let front = spaced(segments.drop_last());
        match segments.last() {
            Some(text) => (front + trimmed(text@)).push(' '),
            None => front,
        }
    }
}

/// Put the segments of a transcription together, a space between them; a
/// segment that could not be read is left out.
pub fn transcription(segments: &Vec<Option<String>>, language: Option<String>) -> (r: Transcription)
    ensures
        r.text@ == trimmed(spaced(segments@)),
        r.language == language,
{
    let mut text: String = String::new();
    let mut i: usize = 0;
    assert(segments@.take(0) =~= Seq::empty());
    while i < segments.len()
        invariant
            i <= segments@.len(),
            text@ == spaced(segments@.take(i as int)),
        decreases segments@.len() - i,
    {
        proof {
            assert(segments@.take(i + 1).drop_last() =~= segments@.take(i as int));
            assert(segments@.take(i + 1).last() == segments@[i as int]);
        }
        if let Some(segment) = &segments[i] {
            let part: String = trim(segment.as_str());
            text.append(part.as_str());
            text.push(' ');
        }
        i = i + 1;
    }
    assert(segments@.take(segments@.len() as int) =~= segments@);
    Transcription { text: trim(text.as_str()), language }
}

/// The segments follow each other in order: one that could be read adds its
/// text and a space, and one that could not adds nothing.
pub proof fn law_every_segment_adds_its_text(segments: Seq<Option<String>>, text: String)
    ensures
        spaced(Seq::empty()).len() == 0,
        spaced(segments.push(Some(text))) == spaced(segments) + trimmed(text@) + " "@,
        spaced(segments.push(None)) == spaced(segments),
{
    reveal_strlit(" ");
    assert(segments.push(Some(text)).drop_last() =~= segments);
    assert(segments.push(None).drop_last() =~= segments);
    assert(spaced(segments.push(Some(text))) =~= spaced(segments) + trimmed(text@) + " "@);
}

/// The texts of segments.
pub open spec fn segment_texts(segments: Seq<Option<String>>) -> Seq<Seq<char>> {
    Seq::new(segments.len(), |i: int| trimmed(segments[i]->0@))
}

proof fn lemma_spaced_is_joined(segments: Seq<Option<String>>)
    requires
        segments.len() > 0,
        forall|i: int|
            0 <= i < segments.len() ==> #[trigger] segments[i] is Some && trimmed(
                segments[i]->0@,
            ).len() > 0,
    ensures
        spaced(segments) == joined(segment_texts(segments), " "@) + " "@,
        ({
            let all = joined(segment_texts(segments), " "@);
            all.len() > 0 && !is_white(all[0]) && !is_white(all.last())
        }),
    decreases segments.len(),
{
    reveal_strlit(" ");
    let front = segments.drop_last();
    let parts = segment_texts(segments);
    let last = segments[segments.len() - 1];
    assert(last is Some && trimmed(last->0@).len() > 0);
    lemma_trimmed_ends(last->0@);
    assert(parts.drop_last() =~= segment_texts(front));
    assert(parts.last() == trimmed(last->0@));
    if front.len() == 0 {
        assert(spaced(front) =~= Seq::empty());
        assert(spaced(segments) =~= trimmed(last->0@) + " "@);
    } else {
        assert forall|i: int| 0 <= i < front.len() implies #[trigger] front[i] is Some && trimmed(
            front[i]->0@,
        ).len() > 0 by {
            assert(front[i] == segments[i]);
        }
        lemma_spaced_is_joined(front);
        assert(spaced(segments) =~= joined(parts, " "@) + " "@);
    }
}

/// Where every segment holds text, the transcription is the texts with one space
/// between each two of them.
pub proof fn law_segments_are_joined_by_spaces(segments: Seq<Option<String>>)
    requires
        forall|i: int|
            0 <= i < segments.len() ==> #[trigger] segments[i] is Some && trimmed(
                segments[i]->0@,
            ).len() > 0,
    ensures
        trimmed(spaced(segments)) == joined(segment_texts(segments), " "@),
{
    let none = Seq::<char>::empty();
    if segments.len() == 0 {
        assert(spaced(segments) =~= none + none + none);
        law_trimming_takes_the_white_ends(none, none, none);
    } else {
        reveal_strlit(" ");
        lemma_spaced_is_joined(segments);
        let all = joined(segment_texts(segments), " "@);
        assert(spaced(segments) =~= none + all + " "@);
        law_trimming_takes_the_white_ends(none, all, " "@);
    }
}

/// No segment is lost: the text of each one that could be read is in the
/// transcription.
pub proof fn law_no_segment_is_lost(segments: Seq<Option<String>>, i: int)
    requires
        0 <= i < segments.len(),
        segments[i] is Some,
    ensures
        occurs_in(trimmed(segments[i]->0@), trimmed(spaced(segments))),
{
    let text = trimmed(segments[i]->0@);
    let s = spaced(segments);
    let (a, _) = lemma_segment_is_there(segments, i);
    let (front, back) = lemma_trimmed_parts(s);
    let kept = trimmed(s);
    if text.len() == 0 {
        let none = Seq::<char>::empty();
        assert(kept =~= none + text + kept);
        law_occurring_is_standing_within(none, text, kept, kept);
    } else {
        lemma_trimmed_ends(segments[i]->0@);
        let n = a.len() as int;
        let m = n + text.len();
        assert(s[n] == text[0]);
        assert(s[m - 1] == text.last());
        if n < front.len() {
            assert(s[n] == front[n]);
        }
        if m > front.len() + kept.len() {
            assert(s[m - 1] == back[m - 1 - front.len() - kept.len()]);
        }
        let x = kept.take(n - front.len());
        let y = kept.skip(m - front.len());
        assert forall|k: int| 0 <= k < text.len() implies kept[n - front.len() + k]
            == #[trigger] text[k] by {
            assert(s[n + k] == text[k]);
            assert(s[n + k] == kept[n + k - front.len()]);
        }
        assert(kept =~= x + text + y);
        law_occurring_is_standing_within(x, text, y, kept);
    }
}

proof fn lemma_segment_is_there(segments: Seq<Option<String>>, i: int) -> (ends: (
    Seq<char>,
    Seq<char>,
))
    requires
        0 <= i < segments.len(),
        segments[i] is Some,
    ensures
        spaced(segments) == ends.0 + trimmed(segments[i]->0@) + ends.1,
    decreases segments.len(),
{
    let front = segments.drop_last();
    let text = trimmed(segments[i]->0@);
    if i == segments.len() - 1 {
        assert(spaced(segments) =~= spaced(front) + text + seq![' ']);
        (spaced(front), seq![' '])
    } else {
        assert(front[i] == segments[i]);
        let (a, b) = lemma_segment_is_there(front, i);
        match segments.last() {
            Some(more) => {
                let c = (b + trimmed(more@)).push(' ');
                assert(spaced(segments) =~= a + text + c);
                (a, c)
            },
            None => (a, b),
        }
    }
}

} // verus!
