//! Recorded audio: raw 16-bit samples as they are appended while recording,
//! and the WAV file that is made of them.

use vstd::prelude::*;

verus! {

/// The sample rate of recorded audio.
pub const SAMPLE_RATE: u32 = 16_000;

/// The two bytes of a 16-bit number, low byte first.
pub open spec fn le16(x: int) -> Seq<u8> {
    seq![(x % 256) as u8, (x / 256 % 256) as u8]
}

/// The four bytes of a 32-bit number, low byte first.
pub open spec fn le32(x: int) -> Seq<u8> {
    seq![
        (x % 256) as u8,
        (x / 256 % 256) as u8,
        (x / 65536 % 256) as u8,
        (x / 16777216 % 256) as u8,
    ]
}

/// A sample as an unsigned number, in two's complement.
pub open spec fn sample_bits(s: i16) -> int {
    if s < 0 {
        s + 65536
    } else {
        s as int
    }
}

/// The raw bytes of samples: two for each, low byte first.
pub open spec fn pcm(samples: Seq<i16>) -> Seq<u8>
    decreases samples.len(),
{
    if samples.len() == 0 {
        Seq::empty()
    } else {
        pcm(samples.drop_last()) + le16(sample_bits(samples.last()))
    }
}

/// The sample with the given low and high byte.
pub open spec fn sample_from(lo: u8, hi: u8) -> i16 {
    let u = lo + 256 * hi;
    if u >= 32768 {
        (u - 65536) as i16
    } else {
        u as i16
    }
}

/// The samples that raw bytes hold; an odd byte at the end belongs to none.
pub open spec fn samples_of(bytes: Seq<u8>) -> Seq<i16> {
    Seq::new((bytes.len() / 2) as nat, |i: int| sample_from(bytes[2 * i], bytes[2 * i + 1]))
}

/// Raw bytes take two bytes for each sample.
pub proof fn lemma_pcm_len(samples: Seq<i16>)
    ensures
        pcm(samples).len() == 2 * samples.len(),
    decreases samples.len(),
{
    if samples.len() > 0 {
        lemma_pcm_len(samples.drop_last());
    }
}

/// Reading raw bytes gives back the samples that were written.
pub proof fn law_pcm_reads_back(samples: Seq<i16>)
    ensures
        samples_of(pcm(samples)) == samples,
    decreases samples.len(),
{
    lemma_pcm_len(samples);
    if samples.len() == 0 {
        assert(samples_of(pcm(samples)) =~= samples);
    } else {
        let front = samples.drop_last();
        law_pcm_reads_back(front);
        lemma_pcm_len(front);
        let n = front.len() as int;
        let last = samples.last();
        assert(sample_from(le16(sample_bits(last))[0], le16(sample_bits(last))[1]) == last);
        assert forall|i: int| 0 <= i < samples.len() implies samples_of(pcm(samples))[i]
            == samples[i] by {
            if i < n {
                assert(pcm(samples)[2 * i] == pcm(front)[2 * i]);
                assert(pcm(samples)[2 * i + 1] == pcm(front)[2 * i + 1]);
                assert(samples_of(pcm(front))[i] == front[i]);
            } else {
                assert(pcm(samples)[2 * i] == le16(sample_bits(last))[0]);
                assert(pcm(samples)[2 * i + 1] == le16(sample_bits(last))[1]);
            }
        }
        assert(samples_of(pcm(samples)) =~= samples);
    }
}

/// Appending the bytes of more samples is the same as writing all samples at once.
pub proof fn law_pcm_appends(a: Seq<i16>, b: Seq<i16>)
    ensures
        pcm(a) + pcm(b) == pcm(a + b),
    decreases b.len(),
{
    if b.len() == 0 {
        assert(a + b =~= a);
        assert(pcm(a) + pcm(b) =~= pcm(a));
    } else {
        law_pcm_appends(a, b.drop_last());
        assert((a + b).drop_last() =~= a + b.drop_last());
        assert((a + b).last() == b.last());
        assert(pcm(a) + pcm(b) =~= pcm(a + b));
    }
}

/// A recording that is appended to holds all samples, in order.
pub proof fn law_recording_holds_what_was_appended(a: Seq<i16>, b: Seq<i16>)
    ensures
        samples_of(pcm(a) + pcm(b)) == a + b,
{
    law_pcm_appends(a, b);
    law_pcm_reads_back(a + b);
}

/// The raw bytes that samples add to the end of a recording.
pub fn append_pcm(samples: &Vec<i16>) -> (r: Vec<u8>)
    ensures
        r@ == pcm(samples@),
{
    let mut r: Vec<u8> = Vec::new();
    let mut i: usize = 0;
    assert(samples@.take(0) =~= Seq::empty());
    while i < samples.len()
        invariant
            0 <= i <= samples@.len(),
            r@ == pcm(samples@.take(i as int)),
        decreases samples@.len() - i,
    {
        let s: i16 = samples[i];
        let u: u16 = if s < 0 {
            (s as i32 + 65536) as u16
        } else {
            s as u16
        };
        let ghost next = samples@.take(i + 1);
        assert(next.drop_last() =~= samples@.take(i as int));
        assert(next.last() == s);
        r.push((u % 256) as u8);
        r.push((u / 256) as u8);
        assert(r@ =~= pcm(next));
        i = i + 1;
    }
    assert(samples@.take(samples@.len() as int) =~= samples@);
    r
}

/// The samples of the raw bytes of a recording.
pub fn pcm_samples(bytes: &Vec<u8>) -> (r: Vec<i16>)
    ensures
        r@ == samples_of(bytes@),
{
    let n: usize = bytes.len() / 2;
    let mut r: Vec<i16> = Vec::new();
    let mut i: usize = 0;
    while i < n
        invariant
            0 <= i <= n == bytes.len() / 2,
            r@ == samples_of(bytes@).take(i as int),
        decreases n - i,
    {
        let u: u16 = (bytes[2 * i] as u16) + 256 * (bytes[2 * i + 1] as u16);
        let s: i16 = if u >= 32768 {
            (u as i32 - 65536) as i16
        } else {
            u as i16
        };
        r.push(s);
        assert(r@ =~= samples_of(bytes@).take(i + 1));
        i = i + 1;
    }
    assert(samples_of(bytes@).take(n as int) =~= samples_of(bytes@));
    r
}

/// The WAV file of 16-bit samples on one channel: a header of 44 bytes and
/// the raw bytes of the samples.
pub open spec fn wav_file(samples: Seq<i16>, sample_rate: u32) -> Seq<u8> {
    wav_header(2 * samples.len() as int, sample_rate as int) + pcm(samples)
}

/// The header of such a file, for `data_len` bytes of samples.
pub open spec fn wav_header(data_len: int, sample_rate: int) -> Seq<u8> {
    seq![0x52u8, 0x49, 0x46, 0x46] + le32(36 + data_len) + seq![0x57u8, 0x41, 0x56, 0x45]
        + seq![0x66u8, 0x6d, 0x74, 0x20] + le32(16) + le16(1) + le16(1) + le32(sample_rate) + le32(
        2 * sample_rate,
    ) + le16(2) + le16(16) + seq![0x64u8, 0x61, 0x74, 0x61] + le32(data_len)
}

/// Whether samples are few enough for a WAV file, whose lengths are 32-bit numbers.
pub open spec fn fits_wav(samples: nat) -> bool {
    36 + 2 * samples <= u32::MAX
}

/// Whether the bytes per second at a sample rate are a positive 32-bit number.
pub open spec fn is_rate(sample_rate: u32) -> bool {
    0 < sample_rate && 2 * sample_rate <= u32::MAX
}

/// An error of the WAV encoder or decoder, `hound::Error`.
#[verifier::external_type_specification]
#[verifier::external_body]
pub struct ExWavError(hound::Error);

/// `hound::WavWriter`, given 16-bit samples of one channel, writes the header
/// of 44 bytes and then the samples; writing to memory does not fail.
#[verifier::external_body]
fn encode(samples: &Vec<i16>, channels: u16, sample_rate: u32, bits: u16) -> (r: Result<
    Vec<u8>,
    hound::Error,
>)
    requires
        channels == 1,
        bits == 16,
        is_rate(sample_rate),
        fits_wav(samples@.len()),
    ensures
        r is Ok,
        r->Ok_0@ == wav_file(samples@, sample_rate),
{
    let sample_format = hound::SampleFormat::Int;
    let spec = hound::WavSpec { channels, sample_rate, bits_per_sample: bits, sample_format };
    let mut bytes: Vec<u8> = Vec::new();
    let mut writer = hound::WavWriter::new(std::io::Cursor::new(&mut bytes), spec)?;
    for s in samples {
        writer.write_sample(*s)?;
    }
    writer.finalize()?;
    Ok(bytes)
}

/// What `hound::WavReader` reads of a file: each 16-bit sample that the
/// header announces, or a gap where it cannot be read; nothing where the
/// header cannot be read.
pub uninterp spec fn wav_read(bytes: Seq<u8>) -> Option<Seq<Option<i16>>>;

/// `hound::WavReader` reads a file; what it reads depends on the bytes alone.
/// A file of 16-bit samples on one channel is read back as these samples.
#[verifier::external_body]
fn decode(bytes: &Vec<u8>) -> (r: Result<Vec<Option<i16>>, hound::Error>)
    ensures
        match r {
            Ok(v) => wav_read(bytes@) == Some(v@),
            Err(_) => wav_read(bytes@) is None,
        },
        forall|s: Seq<i16>, rate: u32|
            #![trigger wav_file(s, rate)]
            is_rate(rate) && fits_wav(s.len()) && bytes@ == wav_file(s, rate) ==> r is Ok
                && r->Ok_0@ == s.map_values(|x: i16| Some(x)),
{
    let reader = hound::WavReader::new(std::io::Cursor::new(bytes))?;
    Ok(reader.into_samples::<i16>().map(|s| s.ok()).collect())
}

/// The samples that were read, without the gaps.
pub open spec fn without_gaps(read: Seq<Option<i16>>) -> Seq<i16>
    decreases read.len(),
{
    if read.len() == 0 {
        Seq::empty()
    } else {
        let before = without_gaps(read.drop_last());
        match read.last() {
            Some(s) => before.push(s),
            None => before,
        }
    }
}

/// Leave out the gaps of what was read.
pub fn drop_gaps(read: &Vec<Option<i16>>) -> (r: Vec<i16>)
    ensures
        r@ == without_gaps(read@),
{
    let mut r: Vec<i16> = Vec::new();
    let mut i: usize = 0;
    assert(read@.take(0) =~= Seq::empty());
    while i < read.len()
        invariant
            0 <= i <= read@.len(),
            r@ == without_gaps(read@.take(i as int)),
        decreases read@.len() - i,
    {
        let ghost next = read@.take(i + 1);
        assert(next.drop_last() =~= read@.take(i as int));
        assert(next.last() == read@[i as int]);
        if let Some(s) = read[i] {
            r.push(s);
        }
        i = i + 1;
    }
    assert(read@.take(read@.len() as int) =~= read@);
    r
}

proof fn lemma_no_gaps(samples: Seq<i16>)
    ensures
        without_gaps(samples.map_values(|x: i16| Some(x))) == samples,
    decreases samples.len(),
{
    let read = samples.map_values(|x: i16| Some(x));
    if samples.len() == 0 {
        assert(without_gaps(read) =~= samples);
    } else {
        lemma_no_gaps(samples.drop_last());
        assert(read.drop_last() =~= samples.drop_last().map_values(|x: i16| Some(x)));
        assert(without_gaps(read) =~= samples);
    }
}

/// The samples of a WAV file; none where it is not one. The file that
/// `finalize_wav` makes of samples is read back as these samples.
pub fn read_wav_samples(bytes: &Vec<u8>) -> (r: Vec<i16>)
    ensures
        r@ == (match wav_read(bytes@) {
            Some(read) => without_gaps(read),
            None => Seq::empty(),
        }),
        forall|s: Seq<i16>, rate: u32|
            #![trigger wav_file(s, rate)]
            is_rate(rate) && fits_wav(s.len()) && bytes@ == wav_file(s, rate) ==> r@ == s,
{
    match decode(bytes) {
        Ok(read) => {
            let r: Vec<i16> = drop_gaps(&read);
            proof {
                assert forall|s: Seq<i16>, rate: u32|
                    #![trigger wav_file(s, rate)]
                    is_rate(rate) && fits_wav(s.len()) && bytes@ == wav_file(s, rate) implies r@
                    == s by {
                    lemma_no_gaps(s);
                }
            }
            r
        },
        Err(_) => Vec::new(),
    }
}

/// The WAV file of a recording.
pub fn finalize_wav(recording: &Vec<u8>) -> (r: Vec<u8>)
    requires
        fits_wav(samples_of(recording@).len()),
    ensures
        r@ == wav_file(samples_of(recording@), SAMPLE_RATE),
        r@ == wav_file(samples_of(recording@), 16_000),
{
    let samples: Vec<i16> = pcm_samples(recording);
    match encode(&samples, 1, SAMPLE_RATE, 16) {
        Ok(bytes) => bytes,
        Err(_) => Vec::new(),
    }
}

/// Whether a WAV file must be made again from its recording: the recording
/// is not empty, and the file is missing or shorter than a header and the
/// whole samples of the recording.
pub open spec fn is_unfinished(pcm_len: int, wav_len: Option<int>) -> bool {
    pcm_len != 0 && (wav_len is None || wav_len->0 < 44 + pcm_len - pcm_len % 2)
}

/// Whether a WAV file must be made again, from the lengths of the recording
/// and of the file.
pub fn recover_unfinalized(pcm_len: u64, wav_len: Option<u64>) -> (r: bool)
    ensures
        r == is_unfinished(
            pcm_len as int,
            match wav_len {
                Some(w) => Some(w as int),
                None => None,
            },
        ),
{
    if pcm_len == 0 {
        return false;
    }
    match wav_len {
        Some(w) => (w as u128) < 44 + (pcm_len as u128) - (pcm_len as u128) % 2,
        None => true,
    }
}

/// A WAV file is 44 bytes longer than its samples.
pub proof fn law_wav_len(samples: Seq<i16>, sample_rate: u32)
    ensures
        wav_file(samples, sample_rate).len() == 44 + 2 * samples.len(),
{
    lemma_pcm_len(samples);
}

/// Once a recording was finalized its file need not be made again; a file that
/// is missing, or shorter than the one that would be made, must be.
pub proof fn law_finalized_is_finished(recording: Seq<u8>, wav_len: nat)
    ensures
        !is_unfinished(
            recording.len() as int,
            Some(wav_file(samples_of(recording), SAMPLE_RATE).len() as int),
        ),
        recording.len() > 0 ==> is_unfinished(recording.len() as int, None),
        recording.len() > 0 && wav_len < wav_file(samples_of(recording), SAMPLE_RATE).len()
            ==> is_unfinished(recording.len() as int, Some(wav_len as int)),
        recording.len() > 1 ==> is_unfinished(recording.len() as int, Some(44)),
{
    law_wav_len(samples_of(recording), SAMPLE_RATE);
}

/// A sample takes two bytes, the low one first, in two's complement, and a
/// recording is read two bytes at a time; an odd byte at its end is left alone.
pub proof fn law_the_low_byte_comes_first(s: i16, recording: Seq<u8>, lo: u8, hi: u8)
    requires
        recording.len() % 2 == 0,
    ensures
        pcm(seq![s]).len() == 2,
        pcm(seq![s])[0] + 256 * pcm(seq![s])[1] == (if s < 0 {
            s + 65536
        } else {
            s as int
        }),
        samples_of(recording.push(lo)) == samples_of(recording),
        samples_of(recording.push(lo).push(hi)).drop_last() == samples_of(recording),
        ({
            let last = samples_of(recording.push(lo).push(hi)).last();
            lo + 256 * hi == last || lo + 256 * hi == last + 65536
        }),
{
    assert(seq![s].drop_last() =~= Seq::empty());
    reveal_with_fuel(pcm, 2);
    assert(seq![s].last() == s);
    assert(pcm(seq![s]) =~= le16(sample_bits(s)));
    let two = recording.push(lo).push(hi);
    let n = (recording.len() / 2) as int;
    assert(2 * n == recording.len());
    assert(samples_of(recording.push(lo)) =~= samples_of(recording));
    assert(samples_of(two).drop_last() =~= samples_of(recording));
    assert(samples_of(two).last() == sample_from(two[2 * n], two[2 * n + 1]));
}

/// Gaps are left out, and no sample is.
pub proof fn law_only_gaps_are_left_out(a: Seq<Option<i16>>, sample: i16)
    ensures
        without_gaps(Seq::empty()).len() == 0,
        without_gaps(a.push(Some(sample))) == without_gaps(a).push(sample),
        without_gaps(a.push(None)) == without_gaps(a),
{
    assert(a.push(Some(sample)).drop_last() =~= a);
    assert(a.push(None).drop_last() =~= a);
}

/// A file is made again exactly where there is a recording and the file is
/// missing or too short for a header and all whole samples.
pub proof fn law_what_is_made_again(recording: Seq<u8>, wav_len: nat)
    ensures
        !is_unfinished(0, None),
        !is_unfinished(0, Some(wav_len as int)),
        recording.len() > 0 ==> (is_unfinished(recording.len() as int, Some(wav_len as int))
            <==> wav_len < 44 + 2 * samples_of(recording).len()),
{
}

/// A WAV file says what it holds: its marks, its length without the first eight
/// bytes, its one channel, its rate in samples and in bytes, the size of a
/// sample, and the length of the samples, which follow.
pub proof fn law_a_wav_file_says_what_it_holds(samples: Seq<i16>, sample_rate: u32)
    requires
        is_rate(sample_rate),
        fits_wav(samples.len()),
    ensures
        ({
            let file = wav_file(samples, sample_rate);
            &&& file.len() == 44 + 2 * samples.len()
            &&& number_at(file, 4) == file.len() - 8
            &&& file[22] == 1 && file[23] == 0
            &&& number_at(file, 24) == sample_rate
            &&& number_at(file, 28) == 2 * sample_rate
            &&& file[34] == 16 && file[35] == 0
            &&& number_at(file, 40) == file.len() - 44
            &&& file.skip(44) == pcm(samples)
            &&& samples_of(file.skip(44)) == samples
        }),
{
    let file = wav_file(samples, sample_rate);
    lemma_pcm_len(samples);
    law_pcm_reads_back(samples);
    lemma_number(36 + 2 * samples.len() as int);
    lemma_number(sample_rate as int);
    lemma_number(2 * sample_rate);
    lemma_number(2 * samples.len() as int);
    assert(file.skip(44) =~= pcm(samples));
    assert(file.subrange(4, 8) =~= le32(36 + 2 * samples.len() as int));
    assert(file.subrange(24, 28) =~= le32(sample_rate as int));
    assert(file.subrange(28, 32) =~= le32(2 * sample_rate));
    assert(file.subrange(40, 44) =~= le32(2 * samples.len() as int));
    lemma_number_in(file, 4);
    lemma_number_in(file, 24);
    lemma_number_in(file, 28);
    lemma_number_in(file, 40);
}

/// The number in four bytes of a file, the lowest first.
pub open spec fn number_at(file: Seq<u8>, i: int) -> int {
    file[i] + 256 * file[i + 1] + 65536 * file[i + 2] + 16777216 * file[i + 3]
}

proof fn lemma_number_in(file: Seq<u8>, i: int)
    requires
        0 <= i,
        i + 4 <= file.len(),
    ensures
        number_at(file, i) == number_at(file.subrange(i, i + 4), 0),
{
}

proof fn lemma_number(x: int)
    requires
        0 <= x <= u32::MAX,
    ensures
        number_at(le32(x), 0) == x,
{
    assert(x % 256 + 256 * (x / 256 % 256) + 65536 * (x / 65536 % 256) + 16777216 * (x / 16777216)
        == x) by (nonlinear_arith)
        requires
            0 <= x,
    ;
    assert(x / 16777216 % 256 == x / 16777216);
}

} // verus!
