//! System audio: the framing of its samples, and what its helper reports.

use vstd::prelude::*;
use vstd::utf8::is_ascii_chars;

use crate::text::{
    ascii_lower, contains, law_occurring_is_standing_within, lowercase, occurs_in, opt_chars,
    to_lowercase,
};

verus! {

/// The sample rate of system audio.
pub const SAMPLE_RATE: u32 = 48_000;

/// What is shown when the permission to capture is missing.
pub const PERMISSION_NOTICE: &'static str =
    "System audio needs Screen Recording permission — grant it in System Settings › Privacy & Security › Screen Recording, then restart.";

/// What is shown when capture has started.
pub const CAPTURING_NOTICE: &'static str = "Capturing system audio (other participants).";

/// The little-endian number in the four bytes at `i`.
pub open spec fn word_at(bytes: Seq<u8>, i: int) -> int {
    bytes[i] + 0x100 * bytes[i + 1] + 0x1_0000 * bytes[i + 2] + 0x100_0000 * bytes[i + 3]
}

/// The samples, each given by its bits, in the whole words of a stream.
pub open spec fn words_in(bytes: Seq<u8>) -> Seq<u32> {
    Seq::new(bytes.len() / 4, |k: int| word_at(bytes, 4 * k) as u32)
}

/// The bytes behind the last whole word of a stream.
pub open spec fn tail_of(bytes: Seq<u8>) -> Seq<u8> {
    bytes.subrange(bytes.len() - bytes.len() % 4, bytes.len() as int)
}

/// A reader of samples that come in as bytes. It holds the bytes of a sample
/// that is not complete yet.
pub struct SampleReader {
    pub partial: Vec<u8>,
}

fn word(a: u8, b: u8, c: u8, d: u8) -> (r: u32)
    ensures
        r == a + 0x100 * b + 0x1_0000 * c + 0x100_0000 * d,
{
    a as u32 + 0x100 * (b as u32) + 0x1_0000 * (c as u32) + 0x100_0000 * (d as u32)
}

impl SampleReader {
    /// Less than a sample is held back.
    pub open spec fn wf(&self) -> bool {
        self.partial@.len() < 4
    }

    /// Nothing is held back.
    pub fn new() -> (r: Self)
        ensures
            r.wf(),
            r.partial@ == Seq::<u8>::empty(),
    {
        SampleReader { partial: Vec::new() }
    }

    /// Take the bytes that were read, and return the bits of the samples that
    /// they complete, if they complete any.
    pub fn push(&mut self, bytes: Vec<u8>) -> (r: Option<Vec<u32>>)
        requires
            old(self).wf(),
        ensures
            final(self).wf(),
            final(self).partial@ == tail_of(old(self).partial@ + bytes@),
            match r {
                Some(samples) => samples@ == words_in(old(self).partial@ + bytes@)
                    && samples@.len() > 0,
                None => words_in(old(self).partial@ + bytes@).len() == 0,
            },
    {
        let ghost all = self.partial@ + bytes@;
        let mut bytes: Vec<u8> = bytes;
        self.partial.append(&mut bytes);
        let len: usize = self.partial.len();
        let whole: usize = len - len % 4;
        let mut samples: Vec<u32> = Vec::new();
        let mut i: usize = 0;
        while i < whole
            invariant
                self.partial@ == all,
                len == all.len(),
                whole == len - len % 4,
                i <= whole,
                i % 4 == 0,
                samples@.len() == i / 4,
                forall|k: int|
                    0 <= k < i / 4 ==> #[trigger] samples@[k] == word_at(all, 4 * k) as u32,
            decreases whole - i,
        {
            let w: u32 = word(
                self.partial[i],
                self.partial[i + 1],
                self.partial[i + 2],
                self.partial[i + 3],
            );
            proof {
                assert(w == word_at(all, i as int));
                assert(4 * (i / 4) == i);
            }
            let ghost before = samples@;
            samples.push(w);
            i = i + 4;
            assert(i as int / 4 == before.len() + 1);
            assert forall|k: int| 0 <= k < i / 4 implies #[trigger] samples@[k] == word_at(
                all,
                4 * k,
            ) as u32 by {
                if k < before.len() {
                    assert(samples@[k] == before[k]);
                }
            }
        }
        assert(samples@ =~= words_in(all));
        let rest: Vec<u8> = self.partial.split_off(whole);
        self.partial = rest;
        if samples.len() == 0 {
            None
        } else {
            Some(samples)
        }
    }
}

/// It does not matter where a stream is cut into reads: the samples of a first
/// read, and then those of the rest with what was held back, are the samples of
/// the whole, and so is what is held back in the end.
pub proof fn law_reads_may_end_anywhere(first: Seq<u8>, rest: Seq<u8>)
    ensures
        words_in(first) + words_in(tail_of(first) + rest) == words_in(first + rest),
        tail_of(tail_of(first) + rest) == tail_of(first + rest),
{
    let n = first.len() / 4;
    let later = tail_of(first) + rest;
    let all = first + rest;
    let a = words_in(first) + words_in(later);
    let b = words_in(all);
    assert(all.len() == 4 * n + later.len());
    assert forall|i: int| 0 <= i < later.len() implies later[i] == all[4 * n + i] by {}
    assert(a.len() == b.len());
    assert forall|k: int| 0 <= k < b.len() implies a[k] == b[k] by {
        if k < n {
            assert(word_at(first, 4 * k) == word_at(all, 4 * k));
        } else {
            let j = k - n;
            assert(4 * n + 4 * j == 4 * k);
            assert(later[4 * j] == all[4 * k]);
            assert(later[4 * j + 1] == all[4 * k + 1]);
            assert(later[4 * j + 2] == all[4 * k + 2]);
            assert(later[4 * j + 3] == all[4 * k + 3]);
        }
    }
    assert(a =~= b);
    assert(tail_of(later) =~= tail_of(all));
}

/// What to show for a line, given in lower case, that the helper has printed.
pub open spec fn notice_for(lower: Seq<char>) -> Option<Seq<char>> {
    if occurs_in("declined tcc"@, lower) || occurs_in("capture failed"@, lower) {
        Some(PERMISSION_NOTICE@)
    } else if occurs_in("capturing system audio"@, lower) {
        Some(CAPTURING_NOTICE@)
    } else {
        None
    }
}

/// What to show for a line, given in lower case, that the helper has printed.
pub fn notice(lower: &str) -> (r: Option<String>)
    ensures
        match r {
            Some(text) => notice_for(lower@) == Some(text@),
            None => notice_for(lower@) is None,
        },
{
    if contains(lower, "declined tcc") || contains(lower, "capture failed") {
        Some(PERMISSION_NOTICE.to_owned())
    } else if contains(lower, "capturing system audio") {
        Some(CAPTURING_NOTICE.to_owned())
    } else {
        None
    }
}

/// What to show for a line that the helper has printed.
pub fn status(line: &str) -> (r: Option<String>)
    ensures
        match r {
            Some(text) => notice_for(lowercase(line@)) == Some(text@),
            None => notice_for(lowercase(line@)) is None,
        },
        is_ascii_chars(line@) ==> opt_chars(r) == notice_for(
            line@.map_values(|c: char| ascii_lower(c)),
        ),
{
    let lower: String = to_lowercase(line);
    notice(lower.as_str())
}

/// A sample takes four bytes, the lowest first, and its bits come out as they
/// went in; less than four bytes are held back.
pub proof fn law_samples_come_out_as_they_went_in(n: u32, more: Seq<u8>, few: Seq<u8>)
    requires
        few.len() < 4,
    ensures
        ({
            let bytes = seq![
                (n % 256) as u8,
                (n / 256 % 256) as u8,
                (n / 65536 % 256) as u8,
                (n / 16777216) as u8,
            ];
            &&& words_in(bytes) == seq![n]
            &&& words_in(bytes + more) == seq![n] + words_in(more)
            &&& tail_of(bytes + more) == tail_of(more)
        }),
        words_in(few).len() == 0,
        tail_of(few) == few,
{
    let bytes = seq![
        (n % 256) as u8,
        (n / 256 % 256) as u8,
        (n / 65536 % 256) as u8,
        (n / 16777216) as u8,
    ];
    assert(n % 256 + 256 * (n / 256 % 256) + 65536 * (n / 65536 % 256) + 16777216 * (n / 16777216)
        == n) by (nonlinear_arith)
        requires
            0 <= n,
    ;
    assert(word_at(bytes, 0) == n);
    assert(words_in(bytes) =~= seq![n]);
    law_reads_may_end_anywhere(bytes, more);
    assert(tail_of(bytes) =~= Seq::empty());
    assert(tail_of(bytes) + more =~= more);
    assert(words_in(few) =~= Seq::empty());
    assert(tail_of(few) =~= few);
}

/// A line that tells of a refusal asks for the permission, whatever else it
/// says; one that tells of the start says so; any other line shows nothing.
pub proof fn law_the_helper_is_understood(before: Seq<char>, after: Seq<char>, lower: Seq<char>)
    ensures
        notice_for(before + "declined tcc"@ + after) == Some(PERMISSION_NOTICE@),
        notice_for(before + "capture failed"@ + after) == Some(PERMISSION_NOTICE@),
        !occurs_in("declined tcc"@, lower) && !occurs_in("capture failed"@, lower) ==> {
            &&& occurs_in("capturing system audio"@, lower) ==> notice_for(lower) == Some(
                CAPTURING_NOTICE@,
            )
            &&& !occurs_in("capturing system audio"@, lower) ==> notice_for(lower) is None
        },
{
    law_occurring_is_standing_within(before, "declined tcc"@, after, lower);
    law_occurring_is_standing_within(before, "capture failed"@, after, lower);
}

} // verus!
