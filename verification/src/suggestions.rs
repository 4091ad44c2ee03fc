//! The file of suggested questions: one JSON array of strings per line.

use vstd::prelude::*;
use vstd::utf8::{decode_utf8, encode_scalar, encode_utf8, valid_utf8};

use crate::text::texts;

verus! {

/// The JSON text that `serde_json::to_string` writes for a list of strings.
pub uninterp spec fn batch_json(batch: Seq<Seq<char>>) -> Seq<char>;

/// What `serde_json::from_str` reads as a list of strings.
pub uninterp spec fn batch_read(line: Seq<char>) -> Option<Seq<Seq<char>>>;

/// `serde_json::to_string` writes a list of strings as a JSON array. It
/// escapes control characters, so that the text has none; and reading the
/// text gives back the list.
#[verifier::external_body]
fn write_batch(batch: &Vec<String>) -> (r: Result<String, String>)
    ensures
        r is Ok,
        r->Ok_0@ == batch_json(texts(batch@)),
        forall|i: int| 0 <= i < r->Ok_0@.len() ==> (#[trigger] r->Ok_0@[i]) as u32 >= 0x20,
        batch_read(r->Ok_0@) == Some(texts(batch@)),
{
    serde_json::to_string(batch).map_err(|e| e.to_string())
}

/// `serde_json::from_str` reads a JSON array of strings; what it reads
/// depends on the text alone.
#[verifier::external_body]
fn read_batch(line: &str) -> (r: Option<Vec<String>>)
    ensures
        match r {
            Some(batch) => batch_read(line@) == Some(texts(batch@)),
            None => batch_read(line@) is None,
        },
{
    serde_json::from_str::<Vec<String>>(line).ok()
}

/// `String::from_utf8` decodes bytes that are UTF-8, and refuses others.
#[verifier::external_body]
fn utf8_text(bytes: Vec<u8>) -> (r: Option<String>)
    ensures
        match r {
            Some(s) => valid_utf8(bytes@) && s@ == decode_utf8(bytes@),
            None => !valid_utf8(bytes@),
        },
{
    String::from_utf8(bytes).ok()
}

/// The position of the first line feed, or the length where there is none.
pub open spec fn line_feed(bytes: Seq<u8>) -> nat
    decreases bytes.len(),
{
    if bytes.len() == 0 || bytes[0] == 10 {
        0
    } else {
        1 + line_feed(bytes.drop_first())
    }
}

/// There is no line feed before the first one.
pub proof fn lemma_line_feed(bytes: Seq<u8>)
    ensures
        line_feed(bytes) <= bytes.len(),
        forall|i: int| 0 <= i < line_feed(bytes) ==> #[trigger] bytes[i] != 10,
        line_feed(bytes) < bytes.len() ==> bytes[line_feed(bytes) as int] == 10,
    decreases bytes.len(),
{
    if bytes.len() > 0 && bytes[0] != 10 {
        let t = bytes.drop_first();
        lemma_line_feed(t);
        assert forall|i: int| 0 <= i < line_feed(bytes) implies #[trigger] bytes[i] != 10 by {
            if i > 0 {
                assert(t[i - 1] == bytes[i]);
            }
        }
    }
}

proof fn lemma_line_feed_at(bytes: Seq<u8>, n: int)
    requires
        0 <= n <= bytes.len(),
        forall|i: int| 0 <= i < n ==> #[trigger] bytes[i] != 10,
        n < bytes.len() ==> bytes[n] == 10,
    ensures
        line_feed(bytes) == n,
{
    lemma_line_feed(bytes);
    if line_feed(bytes) < n {
        assert(bytes[line_feed(bytes) as int] != 10);
    }
}

/// A line without the carriage return that may end it.
pub open spec fn without_cr(line: Seq<u8>) -> Seq<u8> {
    if line.len() > 0 && line.last() == 13 {
        line.drop_last()
    } else {
        line
    }
}

/// The lines of a file. A line ends with a line feed, or with a carriage
/// return and a line feed, and what follows the last of these is a line too,
/// unless it is empty.
pub open spec fn lines(bytes: Seq<u8>) -> Seq<Seq<u8>>
    decreases bytes.len(),
{
    if bytes.len() == 0 {
        Seq::empty()
    } else {
        proof {
            lemma_line_feed(bytes);
        }
        let n = line_feed(bytes) as int;
        if n == bytes.len() {
            seq![bytes]
        } else {
            seq![without_cr(bytes.subrange(0, n))] + lines(
                bytes.subrange(n + 1, bytes.len() as int),
            )
        }
    }
}

/// The texts of lines; nothing is read after a line that is not UTF-8.
pub open spec fn decoded(lines: Seq<Seq<u8>>) -> Seq<Seq<char>>
    decreases lines.len(),
{
    if lines.len() == 0 || !valid_utf8(lines[0]) {
        Seq::empty()
    } else {
        seq![decode_utf8(lines[0])] + decoded(lines.drop_first())
    }
}

/// The batches among what was read; a line that is no batch is passed over.
pub open spec fn batches_among(read: Seq<Option<Seq<Seq<char>>>>) -> Seq<Seq<Seq<char>>>
    decreases read.len(),
{
    if read.len() == 0 {
        Seq::empty()
    } else {
        let front = batches_among(read.drop_last());
        match read.last() {
            Some(batch) => front.push(batch),
            None => front,
        }
    }
}

/// The batches that a file of suggestions holds.
pub open spec fn loaded(bytes: Seq<u8>) -> Seq<Seq<Seq<char>>> {
    batches_among(decoded(lines(bytes)).map_values(|line: Seq<char>| batch_read(line)))
}

/// The strings of each batch.
pub open spec fn batch_texts(batches: Seq<Vec<String>>) -> Seq<Seq<Seq<char>>> {
    batches.map_values(|b: Vec<String>| texts(b@))
}

/// The strings of each batch that could be read.
pub open spec fn read_texts(read: Seq<Option<Vec<String>>>) -> Seq<Option<Seq<Seq<char>>>> {
    read.map_values(
        |b: Option<Vec<String>>|
            match b {
                Some(batch) => Some(texts(batch@)),
                None => None,
            },
    )
}

fn copy_range(bytes: &Vec<u8>, from: usize, to: usize) -> (r: Vec<u8>)
    requires
        from <= to <= bytes@.len(),
    ensures
        r@ == bytes@.subrange(from as int, to as int),
{
    let mut r: Vec<u8> = Vec::new();
    let mut i: usize = from;
    assert(r@ =~= bytes@.subrange(from as int, from as int));
    while i < to
        invariant
            from <= i <= to <= bytes@.len(),
            r@ == bytes@.subrange(from as int, i as int),
        decreases to - i,
    {
        r.push(bytes[i]);
        assert(r@ =~= bytes@.subrange(from as int, i + 1));
        i = i + 1;
    }
    r
}

/// The lines of a file, up to one that is not UTF-8.
pub fn text_lines(bytes: &Vec<u8>) -> (r: Vec<String>)
    ensures
        texts(r@) == decoded(lines(bytes@)),
{
    let n: usize = bytes.len();
    let mut r: Vec<String> = Vec::new();
    let mut i: usize = 0;
    assert(bytes@.subrange(0, n as int) =~= bytes@);
    assert(texts(r@) + decoded(lines(bytes@)) =~= decoded(lines(bytes@)));
    while i < n
        invariant_except_break
            i <= n == bytes@.len(),
            texts(r@) + decoded(lines(bytes@.subrange(i as int, n as int))) == decoded(
                lines(bytes@),
            ),
        ensures
            texts(r@) == decoded(lines(bytes@)),
        decreases n - i,
    {
        let ghost rest = bytes@.subrange(i as int, n as int);
        let mut e: usize = i;
        while e < n && bytes[e] != 10
            invariant
                i <= e <= n == bytes@.len(),
                rest == bytes@.subrange(i as int, n as int),
                forall|k: int| 0 <= k < e - i ==> #[trigger] rest[k] != 10,
            decreases n - e,
        {
            assert(rest[e - i] == bytes@[e as int]);
            e = e + 1;
        }
        proof {
            assert(e < n ==> rest[e - i] == bytes@[e as int]);
            lemma_line_feed_at(rest, e - i);
        }
        let stop: usize = if e < n && e > i && bytes[e - 1] == 13 {
            e - 1
        } else {
            e
        };
        let line: Vec<u8> = copy_range(bytes, i, stop);
        let next: usize = if e < n {
            e + 1
        } else {
            n
        };
        let ghost after = bytes@.subrange(next as int, n as int);
        let ghost line_bytes = line@;
        proof {
            assert(rest.subrange(0, e - i) =~= bytes@.subrange(i as int, e as int));
            if e < n {
                assert(rest.subrange(e - i + 1, rest.len() as int) =~= after);
                assert(line_bytes =~= without_cr(rest.subrange(0, e - i)));
            } else {
                assert(line_bytes =~= rest);
                assert(after =~= Seq::empty());
            }
            assert(lines(rest) =~= seq![line_bytes] + lines(after));
            assert(lines(rest).drop_first() =~= lines(after));
            assert(lines(rest)[0] == line_bytes);
        }
        let text: String = match utf8_text(line) {
            Some(t) => t,
            None => {
                assert(decoded(lines(rest)) =~= Seq::empty());
                assert(texts(r@) + decoded(lines(rest)) =~= texts(r@));
                break ;
            },
        };
        let ghost before = texts(r@);
        let ghost t = text@;
        r.push(text);
        i = next;
        proof {
            assert(texts(r@) =~= before.push(t));
            assert(before + (seq![t] + decoded(lines(after))) =~= texts(r@) + decoded(
                lines(after),
            ));
            if i == n {
                assert(after =~= Seq::empty());
                assert(decoded(lines(after)) =~= Seq::empty());
                assert(texts(r@) + decoded(lines(after)) =~= texts(r@));
            }
        }
    }
    r
}

/// Keep the batches among what was read.
pub fn keep_batches(read: Vec<Option<Vec<String>>>) -> (r: Vec<Vec<String>>)
    ensures
        batch_texts(r@) == batches_among(read_texts(read@)),
{
    let ghost all = read_texts(read@);
    let mut rest: Vec<Option<Vec<String>>> = read;
    let mut backwards: Vec<Vec<String>> = Vec::new();
    proof {
        assert(batches_among(all) + batch_texts(backwards@).reverse() =~= batches_among(all));
    }
    while rest.len() > 0
        invariant
            batches_among(read_texts(rest@)) + batch_texts(backwards@).reverse() == batches_among(
                all,
            ),
        decreases rest@.len(),
    {
        let ghost before = read_texts(rest@);
        let ghost found = batch_texts(backwards@);
        if let Some(entry) = rest.pop() {
            assert(read_texts(rest@) =~= before.drop_last());
            if let Some(batch) = entry {
                let ghost b = texts(batch@);
                backwards.push(batch);
                assert(batch_texts(backwards@) =~= found.push(b));
                assert(batches_among(before) + found.reverse() =~= batches_among(
                    read_texts(rest@),
                ) + found.push(b).reverse());
            }
        }
    }
    let mut r: Vec<Vec<String>> = Vec::new();
    let ghost found = batch_texts(backwards@);
    proof {
        assert(batches_among(read_texts(rest@)) =~= Seq::empty());
        assert(found.reverse() =~= batches_among(all));
        assert(batch_texts(r@) + found.reverse() =~= found.reverse());
    }
    while backwards.len() > 0
        invariant
            batch_texts(r@) + batch_texts(backwards@).reverse() == batches_among(all),
        decreases backwards@.len(),
    {
        let ghost done = batch_texts(r@);
        let ghost left = batch_texts(backwards@);
        if let Some(batch) = backwards.pop() {
            let ghost b = texts(batch@);
            assert(batch_texts(backwards@) =~= left.drop_last());
            assert(left.last() == b);
            r.push(batch);
            assert(batch_texts(r@) =~= done.push(b));
            assert(done + left.reverse() =~= done.push(b) + left.drop_last().reverse());
        }
    }
    assert(batch_texts(r@) + batch_texts(backwards@).reverse() =~= batch_texts(r@));
    r
}

/// Read a file of suggestions.
pub fn load_suggestions(bytes: &Vec<u8>) -> (r: Vec<Vec<String>>)
    ensures
        batch_texts(r@) == loaded(bytes@),
{
    let found: Vec<String> = text_lines(bytes);
    let ghost wanted = texts(found@).map_values(|line: Seq<char>| batch_read(line));
    let mut read: Vec<Option<Vec<String>>> = Vec::new();
    let mut i: usize = 0;
    assert(read_texts(read@) =~= wanted.take(0));
    while i < found.len()
        invariant
            i <= found@.len(),
            wanted == texts(found@).map_values(|line: Seq<char>| batch_read(line)),
            read_texts(read@) == wanted.take(i as int),
        decreases found@.len() - i,
    {
        let ghost before = read_texts(read@);
        read.push(read_batch(found[i].as_str()));
        proof {
            assert(wanted[i as int] == batch_read(found@[i as int]@));
            assert(read_texts(read@) =~= before.push(wanted[i as int]));
            assert(read_texts(read@) =~= wanted.take(i + 1));
        }
        i = i + 1;
    }
    assert(wanted.take(wanted.len() as int) =~= wanted);
    keep_batches(read)
}

/// A file to which another line can be appended: it is empty or ends with a
/// line feed, and its lines are UTF-8.
pub open spec fn appendable(bytes: Seq<u8>) -> bool {
    &&& bytes.len() == 0 || bytes.last() == 10
    &&& forall|i: int| 0 <= i < lines(bytes).len() ==> valid_utf8(#[trigger] lines(bytes)[i])
}

proof fn lemma_printable_scalar(c: u32)
    by (bit_vector)
    ensures
        0x20 <= c <= 0x7f ==> (c & 0x7f) as u8 >= 0x20,
        0xC0u8 | ((c >> 6) & 0x1F) as u8 >= 0x20,
        0xE0u8 | ((c >> 12) & 0x0F) as u8 >= 0x20,
        0xF0u8 | ((c >> 18) & 0x7) as u8 >= 0x20,
        0x80u8 | (c & 0x3F) as u8 >= 0x20,
        0x80u8 | ((c >> 6) & 0x3F) as u8 >= 0x20,
        0x80u8 | ((c >> 12) & 0x3F) as u8 >= 0x20,
{
}

proof fn lemma_printable_bytes(chars: Seq<char>)
    requires
        forall|i: int| 0 <= i < chars.len() ==> (#[trigger] chars[i]) as u32 >= 0x20,
    ensures
        forall|i: int|
            0 <= i < encode_utf8(chars).len() ==> #[trigger] encode_utf8(chars)[i] >= 0x20,
    decreases chars.len(),
{
    if chars.len() > 0 {
        let t = chars.drop_first();
        assert forall|i: int| 0 <= i < t.len() implies (#[trigger] t[i]) as u32 >= 0x20 by {
            assert(t[i] == chars[i + 1]);
        }
        lemma_printable_bytes(t);
        lemma_printable_scalar(chars[0] as u32);
        let e = encode_scalar(chars[0] as u32);
        assert(forall|i: int| 0 <= i < e.len() ==> #[trigger] e[i] >= 0x20);
        assert forall|i: int| 0 <= i < encode_utf8(chars).len() implies #[trigger] encode_utf8(
            chars,
        )[i] >= 0x20 by {
            if i >= e.len() {
                assert(encode_utf8(chars)[i] == encode_utf8(t)[i - e.len()]);
            }
        }
    }
}

proof fn lemma_encode_line(chars: Seq<char>)
    ensures
        encode_utf8(chars.push('\n')) == encode_utf8(chars).push(10),
    decreases chars.len(),
{
    if chars.len() == 0 {
        assert(chars.push('\n').drop_first() =~= Seq::<char>::empty());
        assert(encode_utf8(Seq::<char>::empty()) =~= Seq::<u8>::empty());
        assert((10u32 & 0x7f) as u8 == 10) by (bit_vector);
        assert(encode_utf8(chars.push('\n')) =~= seq![10u8]);
    } else {
        lemma_encode_line(chars.drop_first());
        assert(chars.push('\n').drop_first() =~= chars.drop_first().push('\n'));
        assert(encode_utf8(chars.push('\n')) =~= encode_utf8(chars).push(10));
    }
}

proof fn lemma_lines_append(bytes: Seq<u8>, line: Seq<u8>)
    requires
        bytes.len() == 0 || bytes.last() == 10,
        forall|i: int| 0 <= i < line.len() ==> #[trigger] line[i] != 10,
    ensures
        lines(bytes + line.push(10)) == lines(bytes).push(without_cr(line)),
    decreases bytes.len(),
{
    let all = bytes + line.push(10);
    if bytes.len() == 0 {
        lemma_line_feed_at(all, line.len() as int);
        assert(all.subrange(0, line.len() as int) =~= line);
        assert(all.subrange(line.len() as int + 1, all.len() as int) =~= Seq::<u8>::empty());
        assert(lines(Seq::<u8>::empty()) =~= Seq::empty());
        assert(lines(all) =~= seq![without_cr(line)]);
        assert(lines(bytes).push(without_cr(line)) =~= seq![without_cr(line)]);
    } else {
        lemma_line_feed(bytes);
        let n = line_feed(bytes) as int;
        if n == bytes.len() {
            assert(bytes[bytes.len() - 1] != 10);
        }
        assert forall|i: int| 0 <= i < n implies #[trigger] all[i] != 10 by {
            assert(all[i] == bytes[i]);
        }
        assert(all[n] == bytes[n]);
        lemma_line_feed_at(all, n);
        let rest = bytes.subrange(n + 1, bytes.len() as int);
        assert(rest.len() > 0 ==> rest.last() == bytes.last());
        lemma_lines_append(rest, line);
        assert(all.subrange(n + 1, all.len() as int) =~= rest + line.push(10));
        assert(all.subrange(0, n) =~= bytes.subrange(0, n));
        assert(lines(all) =~= lines(bytes).push(without_cr(line)));
    }
}

proof fn lemma_decoded_append(ls: Seq<Seq<u8>>, line: Seq<u8>)
    requires
        forall|i: int| 0 <= i < ls.len() ==> valid_utf8(#[trigger] ls[i]),
        valid_utf8(line),
    ensures
        decoded(ls.push(line)) == decoded(ls).push(decode_utf8(line)),
    decreases ls.len(),
{
    let all = ls.push(line);
    if ls.len() == 0 {
        assert(all.drop_first() =~= Seq::<Seq<u8>>::empty());
        assert(decoded(all.drop_first()) =~= Seq::empty());
        assert(decoded(ls) =~= Seq::empty());
    } else {
        let t = ls.drop_first();
        assert forall|i: int| 0 <= i < t.len() implies valid_utf8(#[trigger] t[i]) by {
            assert(t[i] == ls[i + 1]);
        }
        lemma_decoded_append(t, line);
        assert(all.drop_first() =~= t.push(line));
    }
    assert(decoded(all) =~= decoded(ls).push(decode_utf8(line)));
}

/// A batch that is appended to a file of suggestions is loaded after the
/// batches that were there, which stay as they were; and further batches can
/// be appended. This holds for any line without control characters that reads
/// as a batch.
pub proof fn law_appended_batch_is_loaded(
    bytes: Seq<u8>,
    line: Seq<char>,
    batch: Seq<Seq<char>>,
)
    requires
        appendable(bytes),
        forall|i: int| 0 <= i < line.len() ==> (#[trigger] line[i]) as u32 >= 0x20,
    ensures
        appendable(bytes + encode_utf8(line.push('\n'))),
        batch_read(line) == Some(batch) ==> loaded(bytes + encode_utf8(line.push('\n'))) == loaded(
            bytes,
        ).push(batch),
{
    let enc = encode_utf8(line);
    let all = bytes + encode_utf8(line.push('\n'));
    lemma_printable_bytes(line);
    lemma_encode_line(line);
    lemma_lines_append(bytes, enc);
    assert(without_cr(enc) == enc);
    vstd::utf8::encode_utf8_valid_utf8(line);
    vstd::utf8::encode_utf8_decode_utf8(line);
    lemma_decoded_append(lines(bytes), enc);
    let before = decoded(lines(bytes)).map_values(|l: Seq<char>| batch_read(l));
    let after = decoded(lines(all)).map_values(|l: Seq<char>| batch_read(l));
    assert(after =~= before.push(batch_read(line)));
    assert(after.drop_last() =~= before);
    assert forall|i: int| 0 <= i < lines(all).len() implies valid_utf8(
        #[trigger] lines(all)[i],
    ) by {
        if i < lines(bytes).len() {
            assert(lines(all)[i] == lines(bytes)[i]);
        }
    }
}

/// The line that a batch of questions adds to a file of suggestions. Appended
/// to a file, it is loaded as the last batch.
pub fn append_suggestion(questions: &Vec<String>) -> (r: Result<String, String>)
    ensures
        r is Ok,
        r->Ok_0@ == batch_json(texts(questions@)).push('\n'),
        forall|bytes: Seq<u8>|
            appendable(bytes) ==> #[trigger] appendable(bytes + encode_utf8(r->Ok_0@)),
        forall|bytes: Seq<u8>|
            appendable(bytes) ==> #[trigger] loaded(bytes + encode_utf8(r->Ok_0@)) == loaded(
                bytes,
            ).push(texts(questions@)),
{
    match write_batch(questions) {
        Ok(line) => {
            let mut r: String = line;
            let ghost text = r@;
            r.push('\n');
            proof {
                assert forall|bytes: Seq<u8>| appendable(bytes) implies #[trigger] appendable(
                    bytes + encode_utf8(r@),
                ) by {
                    law_appended_batch_is_loaded(bytes, text, texts(questions@));
                }
                assert forall|bytes: Seq<u8>| appendable(bytes) implies #[trigger] loaded(
                    bytes + encode_utf8(r@),
                ) == loaded(bytes).push(texts(questions@)) by {
                    law_appended_batch_is_loaded(bytes, text, texts(questions@));
                }
            }
            Ok(r)
        },
        Err(e) => {
            let mut message: String = String::new();
            message.append("serialize suggestion: ");
            message.append(e.as_str());
            Err(message)
        },
    }
}

/// A file is read line by line: each line ends with its line feed, of which a
/// carriage return before it is a part, and the last may do without.
pub proof fn law_lines_end_with_line_feeds(line: Seq<u8>, rest: Seq<u8>)
    requires
        forall|i: int| 0 <= i < line.len() ==> #[trigger] line[i] != 10,
    ensures
        lines(Seq::empty()).len() == 0,
        line.len() > 0 ==> lines(line) == seq![line],
        line.len() == 0 || line.last() != 13 ==> lines(line + seq![10u8] + rest) == seq![line]
            + lines(rest),
        lines(line + seq![13u8, 10u8] + rest) == seq![line] + lines(rest),
{
    if line.len() > 0 {
        lemma_line_feed_at(line, line.len() as int);
    }
    let s = line + seq![10u8] + rest;
    let n = line.len() as int;
    assert forall|i: int| 0 <= i < n implies #[trigger] s[i] != 10 by {
        assert(s[i] == line[i]);
    }
    lemma_line_feed_at(s, n);
    assert(s.subrange(0, n) =~= line);
    assert(s.subrange(n + 1, s.len() as int) =~= rest);
    let t = line + seq![13u8, 10u8] + rest;
    assert forall|i: int| 0 <= i < n + 1 implies #[trigger] t[i] != 10 by {
        if i < n {
            assert(t[i] == line[i]);
        }
    }
    lemma_line_feed_at(t, n + 1);
    assert(t.subrange(0, n + 1) =~= line.push(13));
    assert(line.push(13).drop_last() =~= line);
    assert(t.subrange(n + 2, t.len() as int) =~= rest);
}

/// The lines of a file are decoded in order, up to one that is not UTF-8.
pub proof fn law_lines_are_decoded_in_order(line: Seq<u8>, rest: Seq<Seq<u8>>)
    ensures
        decoded(Seq::empty()).len() == 0,
        valid_utf8(line) ==> decoded(seq![line] + rest) == seq![decode_utf8(line)] + decoded(rest),
        !valid_utf8(line) ==> decoded(seq![line] + rest).len() == 0,
{
    assert((seq![line] + rest)[0] == line);
    assert((seq![line] + rest).drop_first() =~= rest);
}

/// The batches stand in the order of their lines, and a line that is no batch
/// costs no other.
pub proof fn law_no_batch_is_lost(
    a: Seq<Option<Seq<Seq<char>>>>,
    batch: Seq<Seq<char>>,
    b: Seq<Option<Seq<Seq<char>>>>,
)
    ensures
        batches_among(Seq::empty()).len() == 0,
        batches_among(seq![None]).len() == 0,
        batches_among(seq![Some(batch)]) == seq![batch],
        batches_among(a + b) == batches_among(a) + batches_among(b),
    decreases b.len(),
{
    let none = Seq::<Option<Seq<Seq<char>>>>::empty();
    assert(batches_among(none) =~= Seq::empty());
    assert(seq![None::<Seq<Seq<char>>>].drop_last() =~= none);
    assert(seq![None::<Seq<Seq<char>>>].last() is None);
    assert(seq![Some(batch)].drop_last() =~= none);
    assert(seq![Some(batch)].last() == Some(batch));
    assert(batches_among(seq![Some(batch)]) =~= seq![batch]);
    if b.len() == 0 {
        assert(a + b =~= a);
        assert(batches_among(a) + batches_among(b) =~= batches_among(a));
    } else {
        law_no_batch_is_lost(a, batch, b.drop_last());
        assert((a + b).drop_last() =~= a + b.drop_last());
        assert((a + b).last() == b.last());
        assert(batches_among(a + b) =~= batches_among(a) + batches_among(b));
    }
}

/// A file holds the batch of its first line, if that is one, and then the
/// batches of the rest; nothing is read from a line on that is not UTF-8.
pub proof fn law_a_file_is_read_line_by_line(line: Seq<u8>, rest: Seq<u8>)
    requires
        forall|i: int| 0 <= i < line.len() ==> #[trigger] line[i] != 10,
        line.len() > 0 ==> line.last() != 13,
    ensures
        loaded(Seq::empty()).len() == 0,
        !valid_utf8(line) ==> loaded(line + seq![10u8] + rest).len() == 0,
        valid_utf8(line) && batch_read(decode_utf8(line)) is None ==> loaded(
            line + seq![10u8] + rest,
        ) == loaded(rest),
        valid_utf8(line) && batch_read(decode_utf8(line)) is Some ==> loaded(
            line + seq![10u8] + rest,
        ) == seq![batch_read(decode_utf8(line))->0] + loaded(rest),
{
    let f = |l: Seq<char>| batch_read(l);
    let all = line + seq![10u8] + rest;
    law_lines_end_with_line_feeds(line, rest);
    law_lines_are_decoded_in_order(line, lines(rest));
    assert(decoded(lines(Seq::empty())).map_values(f) =~= Seq::empty());
    if valid_utf8(line) {
        let text = decode_utf8(line);
        let read = decoded(lines(rest)).map_values(f);
        assert(decoded(lines(all)).map_values(f) =~= seq![batch_read(text)] + read);
        if batch_read(text) is Some {
            assert(batch_read(text) == Some(batch_read(text)->0));
            law_no_batch_is_lost(seq![batch_read(text)], batch_read(text)->0, read);
        } else {
            law_no_batch_is_lost(seq![None], Seq::empty(), read);
            assert(batches_among(seq![None]) + batches_among(read) =~= batches_among(read));
        }
    } else {
        assert(decoded(lines(all)).map_values(f) =~= Seq::empty());
    }
}

/// A line can be appended to an empty file, and to any file of lines that are
/// UTF-8 and each end with a line feed.
pub proof fn law_what_can_be_appended_to(bytes: Seq<u8>)
    ensures
        appendable(Seq::empty()),
        bytes.len() > 0 && bytes.last() == 10 && (forall|i: int|
            0 <= i < lines(bytes).len() ==> valid_utf8(#[trigger] lines(bytes)[i]))
            ==> appendable(bytes),
{
}

} // verus!
