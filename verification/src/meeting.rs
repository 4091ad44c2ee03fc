//! Meetings: their metadata, the list of them, and what is kept of each.

use vstd::prelude::*;

use crate::suggestions::{batch_texts, load_suggestions, loaded};
use crate::text::{
    blank, decimal, decimal_of, is_blank, lemma_blank_trimmed, lemma_decimal_injective, trimmed,
};

verus! {

/// The title of a meeting that has not been named.
pub const UNTITLED: &'static str = "Untitled meeting";

/// What identifies a meeting.
pub struct MeetingMeta {
    pub id: String,
    pub title: String,
    pub created_at_ms: u128,
    pub updated_at_ms: u128,
}

/// The contents of a `MeetingMeta`.
pub struct MetaText {
    pub id: Seq<char>,
    pub title: Seq<char>,
    pub created_at_ms: int,
    pub updated_at_ms: int,
}

impl View for MeetingMeta {
    type V = MetaText;

    open spec fn view(&self) -> MetaText {
        MetaText {
            id: self.id@,
            title: self.title@,
            created_at_ms: self.created_at_ms as int,
            updated_at_ms: self.updated_at_ms as int,
        }
    }
}

/// A meeting with everything that is kept of it but its audio.
pub struct MeetingDetail {
    pub id: String,
    pub title: String,
    pub created_at_ms: u128,
    pub transcript: String,
    pub notes: String,
    pub suggestions: Vec<Vec<String>>,
}

/// The metadata of a meeting that is created at the given time: the time names
/// it, and a blank title stands for none.
pub open spec fn created(ms: int, title: Seq<char>) -> MetaText {
    MetaText {
        id: seq!['m'] + decimal(ms as nat),
        title: if is_blank(title) {
            UNTITLED@
        } else {
            title
        },
        created_at_ms: ms,
        updated_at_ms: ms,
    }
}

/// Metadata with another title, set at the given time.
pub open spec fn retitled(meta: MetaText, title: Seq<char>, now_ms: int) -> MetaText {
    MetaText { title, updated_at_ms: now_ms, ..meta }
}

/// The metadata of a new meeting.
pub fn create(ms: u128, title: &str) -> (r: MeetingMeta)
    ensures
        r@ == created(ms as int, title@),
{
    let digits: String = decimal_of(ms);
    let mut id: String = String::new();
    id.push('m');
    id.append(digits.as_str());
    proof {
        assert(id@ =~= seq!['m'] + decimal(ms as nat));
    }
    let title: String = if blank(title) {
        UNTITLED.to_owned()
    } else {
        title.to_owned()
    };
    MeetingMeta { id, title, created_at_ms: ms, updated_at_ms: ms }
}

/// The title of a meeting whose metadata could be read.
pub fn get_title(meta: Result<MeetingMeta, String>) -> (r: Option<String>)
    ensures
        r == (match meta {
            Ok(m) => Some(m.title),
            Err(_) => None,
        }),
{
    match meta {
        Ok(m) => Some(m.title),
        Err(_) => None,
    }
}

/// Give a meeting another title; where its metadata could not be read, that
/// error stands.
pub fn set_title(meta: Result<MeetingMeta, String>, title: &str, now_ms: u128) -> (r: Result<
    MeetingMeta,
    String,
>)
    ensures
        match meta {
            Ok(m) => r is Ok && r->Ok_0@ == retitled(m@, title@, now_ms as int),
            Err(e) => r == Err::<MeetingMeta, String>(e),
        },
{
    match meta {
        Ok(m) => {
            let mut m: MeetingMeta = m;
            m.title = title.to_owned();
            m.updated_at_ms = now_ms;
            Ok(m)
        },
        Err(e) => Err(e),
    }
}

/// Meetings that are created at different times have different ids.
pub proof fn law_ids_are_distinct(ms1: nat, title1: Seq<char>, ms2: nat, title2: Seq<char>)
    requires
        ms1 != ms2,
    ensures
        created(ms1 as int, title1).id != created(ms2 as int, title2).id,
{
    let a = created(ms1 as int, title1).id;
    let b = created(ms2 as int, title2).id;
    assert(a.drop_first() =~= decimal(ms1));
    assert(b.drop_first() =~= decimal(ms2));
    if a == b {
        lemma_decimal_injective(ms1, ms2);
    }
}

/// The title that was set is the title that a meeting has; its id and the time
/// of its creation stay.
pub proof fn law_title_is_replaced(meta: MetaText, title: Seq<char>, now_ms: int)
    ensures
        retitled(meta, title, now_ms).title == title,
        retitled(meta, title, now_ms).id == meta.id,
        retitled(meta, title, now_ms).created_at_ms == meta.created_at_ms,
{
}

/// A new meeting always has a title.
pub proof fn law_new_meeting_has_a_title(ms: int, title: Seq<char>)
    ensures
        !is_blank(created(ms, title).title),
{
    if is_blank(title) {
        reveal_strlit("Untitled meeting");
        assert(UNTITLED@[0] == 'U');
    }
}

/// Whether a meeting was created at the given time.
pub open spec fn created_at(ms: u128) -> spec_fn(MeetingMeta) -> bool {
    |m: MeetingMeta| m.created_at_ms == ms
}

/// Meetings in the order of their creation, the newest first.
pub open spec fn newest_first(metas: Seq<MeetingMeta>) -> bool {
    forall|i: int, j: int|
        0 <= i < j < metas.len() ==> (#[trigger] metas[i]).created_at_ms >= (
        #[trigger] metas[j]).created_at_ms
}

/// The same meetings in another order, in which those of the same time have
/// kept theirs.
pub open spec fn reordered(before: Seq<MeetingMeta>, after: Seq<MeetingMeta>) -> bool {
    forall|ms: u128| #[trigger]
        after.filter(created_at(ms)) == before.filter(created_at(ms))
}

proof fn lemma_inserted(out: Seq<MeetingMeta>, p: int, m: MeetingMeta, ms: u128)
    requires
        0 <= p <= out.len(),
        forall|k: int| 0 <= k < p ==> (#[trigger] out[k]).created_at_ms > m.created_at_ms,
    ensures
        out.insert(p, m).filter(created_at(ms)) == (seq![m] + out).filter(created_at(ms)),
{
    let f = created_at(ms);
    let front = out.take(p);
    let back = out.skip(p);
    assert(out =~= front + back);
    assert(out.insert(p, m) =~= front + (seq![m] + back));
    Seq::filter_distributes_over_add(front, seq![m] + back, f);
    Seq::filter_distributes_over_add(seq![m], back, f);
    Seq::filter_distributes_over_add(front, back, f);
    Seq::filter_distributes_over_add(seq![m], out, f);
    let one = seq![m].filter(f);
    if m.created_at_ms == ms {
        assert forall|k: int| 0 <= k < front.len() implies !f(#[trigger] front[k]) by {
            assert(front[k] == out[k]);
        }
        front.lemma_all_neg_filter_empty(f);
        assert(front.filter(f) =~= Seq::empty());
        assert(front.filter(f) + (one + back.filter(f)) =~= one + (front.filter(f) + back.filter(
            f,
        )));
    } else {
        assert(forall|k: int| 0 <= k < seq![m].len() ==> !f(#[trigger] seq![m][k]));
        seq![m].lemma_all_neg_filter_empty(f);
        assert(one =~= Seq::empty());
        assert(front.filter(f) + (one + back.filter(f)) =~= one + (front.filter(f) + back.filter(
            f,
        )));
    }
}

proof fn lemma_still_sorted(out: Seq<MeetingMeta>, p: int, m: MeetingMeta)
    requires
        newest_first(out),
        0 <= p <= out.len(),
        forall|k: int| 0 <= k < p ==> (#[trigger] out[k]).created_at_ms > m.created_at_ms,
        p < out.len() ==> out[p].created_at_ms <= m.created_at_ms,
    ensures
        newest_first(out.insert(p, m)),
{
    let after = out.insert(p, m);
    assert forall|i: int, j: int| 0 <= i < j < after.len() implies (
    #[trigger] after[i]).created_at_ms >= (#[trigger] after[j]).created_at_ms by {
        if j < p {
            assert(after[i] == out[i] && after[j] == out[j]);
        } else if j == p {
            assert(after[i] == out[i]);
        } else {
            assert(after[j] == out[j - 1]);
            if i < p {
                assert(after[i] == out[i]);
            } else if i > p {
                assert(after[i] == out[i - 1]);
            } else if j - 1 > p {
                assert(out[p].created_at_ms >= out[j - 1].created_at_ms);
            }
        }
    }
}

/// The meetings whose metadata could be read.
pub open spec fn readable(entries: Seq<Result<MeetingMeta, String>>) -> Seq<MeetingMeta>
    decreases entries.len(),
{
    if entries.len() == 0 {
        Seq::empty()
    } else {
        let rest = readable(entries.drop_last());
        match entries.last() {
            Ok(m) => rest.push(m),
            Err(_) => rest,
        }
    }
}

/// List the meetings whose metadata could be read, the newest first.
pub fn list(entries: Vec<Result<MeetingMeta, String>>) -> (r: Vec<MeetingMeta>)
    ensures
        newest_first(r@),
        reordered(readable(entries@), r@),
        r@.len() == readable(entries@).len(),
        forall|i: int, j: int|
            0 <= i < j < r@.len() ==> (#[trigger] r@[i]).created_at_ms >= (
            #[trigger] r@[j]).created_at_ms,
        forall|m: MeetingMeta| #[trigger]
            r@.contains(m) <==> entries@.contains(Ok::<MeetingMeta, String>(m)),
{
    let ghost given = entries@;
    let ghost all = readable(entries@);
    let mut rest: Vec<Result<MeetingMeta, String>> = entries;
    let mut out: Vec<MeetingMeta> = Vec::new();
    let ghost mut done = Seq::<MeetingMeta>::empty();
    proof {
        assert(readable(rest@) + done =~= all);
    }
    while rest.len() > 0
        invariant
            newest_first(out@),
            readable(rest@) + done == all,
            out@.len() == done.len(),
            reordered(done, out@),
        decreases rest@.len(),
    {
        let ghost before = rest@;
        let ghost listed = out@;
        if let Some(entry) = rest.pop() {
            proof {
                assert(rest@ =~= before.drop_last());
            }
            if let Ok(m) = entry {
                let mut p: usize = 0;
                while p < out.len() && out[p].created_at_ms > m.created_at_ms
                    invariant
                        0 <= p <= out@.len(),
                        forall|k: int|
                            0 <= k < p ==> (#[trigger] out@[k]).created_at_ms > m.created_at_ms,
                    decreases out@.len() - p,
                {
                    p = p + 1;
                }
                out.insert(p, m);
                proof {
                    assert forall|ms: u128| #[trigger]
                        out@.filter(created_at(ms)) == (seq![m] + done).filter(created_at(ms)) by {
                        lemma_inserted(listed, p as int, m, ms);
                        Seq::filter_distributes_over_add(seq![m], listed, created_at(ms));
                        Seq::filter_distributes_over_add(seq![m], done, created_at(ms));
                        assert(listed.filter(created_at(ms)) == done.filter(created_at(ms)));
                    }
                    lemma_still_sorted(listed, p as int, m);
                    assert(readable(before) + done =~= readable(rest@) + (seq![m] + done));
                    done = seq![m] + done;
                }
            }
        }
    }
    proof {
        assert(done =~= all);
        assert forall|m: MeetingMeta| #[trigger] out@.contains(m) <==> given.contains(
            Ok::<MeetingMeta, String>(m),
        ) by {
            law_readable_meetings_are_found(given, m);
            law_reordering_loses_nothing(all, out@, m);
        }
    }
    out
}

/// Put a meeting together from the files that are kept of it; a missing file
/// counts as empty.
pub fn load(
    meta: MeetingMeta,
    transcript: Option<String>,
    notes: Option<String>,
    suggestions: Option<Vec<u8>>,
) -> (r: MeetingDetail)
    ensures
        r.id == meta.id,
        r.title == meta.title,
        r.created_at_ms == meta.created_at_ms,
        r.transcript@ == kept(transcript),
        r.notes@ == kept(notes),
        transcript is Some ==> r.transcript == transcript->0,
        transcript is None ==> r.transcript@.len() == 0,
        notes is Some ==> r.notes == notes->0,
        notes is None ==> r.notes@.len() == 0,
        batch_texts(r.suggestions@) == match suggestions {
            Some(bytes) => loaded(bytes@),
            None => Seq::empty(),
        },
{
    let suggestions: Vec<Vec<String>> = match suggestions {
        Some(bytes) => load_suggestions(&bytes),
        None => Vec::new(),
    };
    let r: MeetingDetail = MeetingDetail {
        id: meta.id,
        title: meta.title,
        created_at_ms: meta.created_at_ms,
        transcript: or_empty_file(transcript),
        notes: or_empty_file(notes),
        suggestions,
    };
    proof {
        if suggestions@.len() == 0 {
            assert(batch_texts(suggestions@) =~= Seq::empty());
        }
    }
    r
}

/// What a file holds; a missing file counts as empty.
pub open spec fn kept(file: Option<String>) -> Seq<char> {
    match file {
        Some(text) => text@,
        None => Seq::empty(),
    }
}

fn or_empty_file(file: Option<String>) -> (r: String)
    ensures
        r@ == kept(file),
        file is Some ==> r == file->0,
{
    match file {
        Some(text) => text,
        None => String::new(),
    }
}

/// The text that a line adds to a transcript.
pub fn append_transcript(line: &str) -> (r: String)
    ensures
        r@ == line@.push('\n'),
{
    let mut r: String = line.to_owned();
    r.push('\n');
    r
}

/// A meeting is found exactly where an entry could be read as it.
pub proof fn law_readable_meetings_are_found(
    entries: Seq<Result<MeetingMeta, String>>,
    m: MeetingMeta,
)
    ensures
        readable(entries).contains(m) <==> entries.contains(Ok::<MeetingMeta, String>(m)),
    decreases entries.len(),
{
    if entries.len() > 0 {
        let front = entries.drop_last();
        let before = readable(front);
        let all = readable(entries);
        law_readable_meetings_are_found(front, m);
        if front.contains(Ok::<MeetingMeta, String>(m)) {
            let i = choose|i: int| 0 <= i < front.len() && front[i] == Ok::<MeetingMeta, String>(m);
            assert(entries[i] == Ok::<MeetingMeta, String>(m));
        }
        if before.contains(m) {
            let i = choose|i: int| 0 <= i < before.len() && before[i] == m;
            assert(all[i] == m);
        }
        if entries.last() == Ok::<MeetingMeta, String>(m) {
            assert(entries[entries.len() - 1] == Ok::<MeetingMeta, String>(m));
            assert(all[before.len() as int] == m);
        }
        if all.contains(m) {
            let i = choose|i: int| 0 <= i < all.len() && all[i] == m;
            if i < before.len() {
                assert(before[i] == m);
            }
        }
        if entries.contains(Ok::<MeetingMeta, String>(m)) {
            let i = choose|i: int|
                0 <= i < entries.len() && entries[i] == Ok::<MeetingMeta, String>(m);
            if i < front.len() {
                assert(front[i] == Ok::<MeetingMeta, String>(m));
            }
        }
    }
}

/// The meetings of entries follow each other as the entries do.
pub proof fn law_entries_are_read_in_order(
    a: Seq<Result<MeetingMeta, String>>,
    b: Seq<Result<MeetingMeta, String>>,
    m: MeetingMeta,
    e: String,
)
    ensures
        readable(Seq::empty()).len() == 0,
        readable(a.push(Ok(m))) == readable(a).push(m),
        readable(a.push(Err(e))) == readable(a),
        readable(a + b) == readable(a) + readable(b),
    decreases b.len(),
{
    assert(a.push(Ok(m)).drop_last() =~= a);
    assert(a.push(Err(e)).drop_last() =~= a);
    if b.len() == 0 {
        assert(a + b =~= a);
        assert(readable(a) + readable(b) =~= readable(a));
    } else {
        law_entries_are_read_in_order(a, b.drop_last(), m, e);
        assert((a + b).drop_last() =~= a + b.drop_last());
        assert((a + b).last() == b.last());
        assert(readable(a + b) =~= readable(a) + readable(b));
    }
}

/// In another order there are the same meetings, none lost and none added.
pub proof fn law_reordering_loses_nothing(
    before: Seq<MeetingMeta>,
    after: Seq<MeetingMeta>,
    m: MeetingMeta,
)
    requires
        reordered(before, after),
    ensures
        before.contains(m) <==> after.contains(m),
{
    let f = created_at(m.created_at_ms);
    assert(after.filter(f) == before.filter(f));
    lemma_filter_keeps(before, f, m);
    lemma_filter_keeps(after, f, m);
}

proof fn lemma_filter_keeps(list: Seq<MeetingMeta>, f: spec_fn(MeetingMeta) -> bool, m: MeetingMeta)
    requires
        f(m),
    ensures
        list.filter(f).contains(m) <==> list.contains(m),
    decreases list.len(),
{
    reveal(Seq::filter);
    if list.len() > 0 {
        let front = list.drop_last();
        lemma_filter_keeps(front, f, m);
        let kept = front.filter(f);
        let all = list.filter(f);
        if list.contains(m) {
            let i = choose|i: int| 0 <= i < list.len() && list[i] == m;
            if i < front.len() {
                assert(front[i] == m);
            }
        }
        if front.contains(m) {
            let i = choose|i: int| 0 <= i < front.len() && front[i] == m;
            assert(list[i] == m);
        }
        if kept.contains(m) {
            let i = choose|i: int| 0 <= i < kept.len() && kept[i] == m;
            assert(all[i] == m);
        }
        if list.last() == m {
            assert(list[list.len() - 1] == m);
            assert(all[kept.len() as int] == m);
        }
        if all.contains(m) {
            let i = choose|i: int| 0 <= i < all.len() && all[i] == m;
            if i < kept.len() {
                assert(kept[i] == m);
            }
        }
    }
}

/// A new meeting has the title that it was given, and goes by the time of its
/// creation; one that was given none is called `Untitled meeting`.
pub proof fn law_a_new_meeting_is_what_was_asked_for(ms: nat, title: Seq<char>)
    ensures
        trimmed(title).len() > 0 ==> created(ms as int, title).title == title,
        trimmed(title).len() == 0 ==> created(ms as int, title).title == "Untitled meeting"@,
        created(ms as int, title).id == "m"@ + decimal(ms),
        created(ms as int, title).created_at_ms == ms,
        created(ms as int, title).updated_at_ms == ms,
{
    lemma_blank_trimmed(title);
    reveal_strlit("m");
    assert("m"@ =~= seq!['m']);
}

/// A new title is a change: the time of it is noted.
pub proof fn law_a_new_title_is_a_change(meta: MetaText, title: Seq<char>, now_ms: int)
    ensures
        retitled(meta, title, now_ms).updated_at_ms == now_ms,
{
}

/// Meetings of the same time keep their order, whatever their titles.
pub proof fn law_meetings_of_one_time_keep_their_order(
    before: Seq<MeetingMeta>,
    after: Seq<MeetingMeta>,
    ms: u128,
)
    requires
        reordered(before, after),
    ensures
        after.filter(|m: MeetingMeta| m.created_at_ms == ms) == before.filter(
            |m: MeetingMeta| m.created_at_ms == ms,
        ),
{
    assert(created_at(ms) =~= (|m: MeetingMeta| m.created_at_ms == ms));
    assert(after.filter(created_at(ms)) == before.filter(created_at(ms)));
}

} // verus!
