//! Cutting a stream of audio into chunks at natural pauses.

use vstd::prelude::*;

verus! {

/// The limits, in samples, by which audio is cut.
#[derive(Clone, Copy)]
pub struct Limits {
    /// The shortest chunk that is cut.
    pub min: usize,
    /// The length from which a chunk is cut without a pause.
    pub max: usize,
    /// How much quiet marks the end of a phrase.
    pub hang: usize,
}

/// The audio that has not been cut yet, and how much of its end is quiet.
pub struct Chunker<T> {
    pub buffer: Vec<T>,
    pub silence_run: usize,
    pub limits: Limits,
}

/// What a `Chunker` holds.
#[verifier::ext_equal]
pub struct Pending<T> {
    pub buffer: Seq<T>,
    pub silence_run: nat,
}

/// A block of audio, and whether it is quiet.
pub struct Block<T> {
    pub samples: Seq<T>,
    pub quiet: bool,
}

/// Audio is cut at a pause, or where the chunk is too long, but never before it
/// is long enough.
pub open spec fn is_cut(limits: Limits, len: nat, silence_run: nat) -> bool {
    len >= limits.min && (silence_run >= limits.hang || len >= limits.max)
}

/// What is pending with one block more, before any cut.
pub open spec fn extended<T>(pending: Pending<T>, block: Block<T>) -> Pending<T> {
    Pending {
        buffer: pending.buffer + block.samples,
        silence_run: if block.quiet {
            pending.silence_run + block.samples.len()
        } else {
            0
        },
    }
}

/// The chunk that a block completes, if it completes one.
pub open spec fn chunk_cut<T>(limits: Limits, pending: Pending<T>, block: Block<T>) -> Option<
    Seq<T>,
> {
    let next = extended(pending, block);
    if is_cut(limits, next.buffer.len(), next.silence_run) {
        Some(next.buffer)
    } else {
        None
    }
}

/// What is pending after a block.
pub open spec fn pending_after<T>(
    limits: Limits,
    pending: Pending<T>,
    block: Block<T>,
) -> Pending<T> {
    if chunk_cut(limits, pending, block) is Some {
        Pending { buffer: Seq::empty(), silence_run: 0 }
    } else {
        extended(pending, block)
    }
}

/// The samples of a stream of blocks.
pub open spec fn samples_of<T>(blocks: Seq<Block<T>>) -> Seq<T>
    decreases blocks.len(),
{
    if blocks.len() == 0 {
        Seq::empty()
    } else {
        samples_of(blocks.drop_last()) + blocks.last().samples
    }
}

/// What is pending after a stream of blocks.
pub open spec fn pending_of<T>(limits: Limits, blocks: Seq<Block<T>>) -> Pending<T>
    decreases blocks.len(),
{
    if blocks.len() == 0 {
        Pending { buffer: Seq::empty(), silence_run: 0 }
    } else {
        pending_after(limits, pending_of(limits, blocks.drop_last()), blocks.last())
    }
}

/// The chunks that are cut from a stream of blocks.
pub open spec fn chunks_of<T>(limits: Limits, blocks: Seq<Block<T>>) -> Seq<Seq<T>>
    decreases blocks.len(),
{
    if blocks.len() == 0 {
        Seq::empty()
    } else {
        let front = chunks_of(limits, blocks.drop_last());
        match chunk_cut(limits, pending_of(limits, blocks.drop_last()), blocks.last()) {
            Some(chunk) => front.push(chunk),
            None => front,
        }
    }
}

/// Chunks one after the other.
pub open spec fn concatenated<T>(chunks: Seq<Seq<T>>) -> Seq<T>
    decreases chunks.len(),
{
    if chunks.len() == 0 {
        Seq::empty()
    } else {
        concatenated(chunks.drop_last()) + chunks.last()
    }
}

impl<T> View for Chunker<T> {
    type V = Pending<T>;

    open spec fn view(&self) -> Pending<T> {
        Pending { buffer: self.buffer@, silence_run: self.silence_run as nat }
    }
}

impl<T> Chunker<T> {
    /// The quiet at the end is part of what is pending.
    pub open spec fn wf(&self) -> bool {
        self.silence_run <= self.buffer@.len()
    }

    /// Nothing is pending.
    pub fn new(limits: Limits) -> (r: Self)
        ensures
            r.wf(),
            r.limits == limits,
            r@ == pending_of::<T>(limits, Seq::empty()),
    {
        Chunker { buffer: Vec::new(), silence_run: 0, limits }
    }

    /// Take a block of audio, and return the chunk that it completes, if any.
    pub fn push(&mut self, block: Vec<T>, quiet: bool) -> (r: Option<Vec<T>>)
        requires
            old(self).wf(),
        ensures
            final(self).wf(),
            final(self).limits == old(self).limits,
            final(self)@ == pending_after(
                old(self).limits,
                old(self)@,
                (Block { samples: block@, quiet }),
            ),
            match r {
                Some(chunk) => chunk_cut(
                    old(self).limits,
                    old(self)@,
                    (Block { samples: block@, quiet }),
                ) == Some(chunk@),
                None => chunk_cut(
                    old(self).limits,
                    old(self)@,
                    (Block { samples: block@, quiet }),
                ) is None,
            },
    {
        let mut block: Vec<T> = block;
        let added: usize = block.len();
        self.buffer.append(&mut block);
        let len: usize = self.buffer.len();
        if quiet {
            self.silence_run = self.silence_run + added;
        } else {
            self.silence_run = 0;
        }
        if len >= self.limits.min && (self.silence_run >= self.limits.hang || len
            >= self.limits.max) {
            let mut chunk: Vec<T> = Vec::new();
            std::mem::swap(&mut chunk, &mut self.buffer);
            self.silence_run = 0;
            Some(chunk)
        } else {
            None
        }
    }

    /// The end of the stream: what is pending, unless that is nothing.
    pub fn flush(&mut self) -> (r: Option<Vec<T>>)
        requires
            old(self).wf(),
        ensures
            final(self).wf(),
            final(self).limits == old(self).limits,
            final(self)@.buffer == Seq::<T>::empty(),
            match r {
                Some(chunk) => chunk@ == old(self)@.buffer && chunk@.len() > 0,
                None => old(self)@.buffer.len() == 0,
            },
    {
        self.silence_run = 0;
        if self.buffer.len() == 0 {
            None
        } else {
            let mut chunk: Vec<T> = Vec::new();
            std::mem::swap(&mut chunk, &mut self.buffer);
            Some(chunk)
        }
    }
}

/// No audio is lost, repeated or reordered: the chunks, and then what is
/// pending, are the audio that came in.
pub proof fn law_chunks_keep_all_audio<T>(limits: Limits, blocks: Seq<Block<T>>)
    ensures
        concatenated(chunks_of(limits, blocks)) + pending_of(limits, blocks).buffer == samples_of(
            blocks,
        ),
    decreases blocks.len(),
{
    if blocks.len() == 0 {
        assert(concatenated(chunks_of(limits, blocks)) =~= Seq::empty());
        assert(concatenated(chunks_of(limits, blocks)) + pending_of(limits, blocks).buffer
            =~= Seq::empty());
    } else {
        let front = blocks.drop_last();
        law_chunks_keep_all_audio(limits, front);
        let chunks = chunks_of(limits, front);
        let pending = pending_of(limits, front);
        let block = blocks.last();
        match chunk_cut(limits, pending, block) {
            Some(chunk) => {
                assert(chunks.push(chunk).drop_last() =~= chunks);
                assert(concatenated(chunks.push(chunk)) + Seq::empty() =~= concatenated(chunks)
                    + pending.buffer + block.samples);
            },
            None => {
                assert(concatenated(chunks) + (pending.buffer + block.samples) =~= concatenated(
                    chunks,
                ) + pending.buffer + block.samples);
            },
        }
    }
}

/// Every chunk that is cut is long enough.
pub proof fn law_chunks_are_long_enough<T>(limits: Limits, blocks: Seq<Block<T>>)
    ensures
        forall|i: int|
            0 <= i < chunks_of(limits, blocks).len() ==> (#[trigger] chunks_of(
                limits,
                blocks,
            )[i]).len() >= limits.min,
    decreases blocks.len(),
{
    if blocks.len() > 0 {
        law_chunks_are_long_enough(limits, blocks.drop_last());
        let chunks = chunks_of(limits, blocks);
        let front = chunks_of(limits, blocks.drop_last());
        assert forall|i: int| 0 <= i < chunks.len() implies (#[trigger] chunks[i]).len()
            >= limits.min by {
            if i < front.len() {
                assert(chunks[i] == front[i]);
            }
        }
    }
}

/// Speech without a pause is cut all the same: what is pending stays shorter
/// than the longest chunk.
pub proof fn law_pending_stays_short<T>(limits: Limits, blocks: Seq<Block<T>>)
    requires
        0 < limits.max,
        limits.min <= limits.max,
    ensures
        pending_of(limits, blocks).buffer.len() < limits.max,
    decreases blocks.len(),
{
    if blocks.len() > 0 {
        law_pending_stays_short(limits, blocks.drop_last());
    }
}

/// How many samples the quiet blocks at the end of a stream hold.
pub open spec fn quiet_end<T>(blocks: Seq<Block<T>>) -> nat
    decreases blocks.len(),
{
    if blocks.len() == 0 || !blocks.last().quiet {
        0
    } else {
        quiet_end(blocks.drop_last()) + blocks.last().samples.len()
    }
}

/// The quiet that counts is the quiet at the end of the stream, as far back as
/// the last cut.
pub proof fn law_quiet_is_counted_from_the_last_cut<T>(limits: Limits, blocks: Seq<Block<T>>)
    ensures
        quiet_end(blocks) <= pending_of(limits, blocks).buffer.len() ==> pending_of(
            limits,
            blocks,
        ).silence_run == quiet_end(blocks),
        quiet_end(blocks) >= pending_of(limits, blocks).buffer.len() ==> pending_of(
            limits,
            blocks,
        ).silence_run == pending_of(limits, blocks).buffer.len(),
    decreases blocks.len(),
{
    if blocks.len() > 0 {
        law_quiet_is_counted_from_the_last_cut(limits, blocks.drop_last());
    }
}

/// Audio is held back only for a reason: what is pending, and is long enough,
/// does not end in a pause and is not too long. Its quiet end, which is all of
/// it where the quiet began before the last cut, is too short for a pause.
pub proof fn law_a_pause_is_cut<T>(limits: Limits, blocks: Seq<Block<T>>)
    ensures
        ({
            let len = pending_of(limits, blocks).buffer.len();
            0 < len && limits.min <= len ==> len < limits.max && (quiet_end(blocks) < limits.hang
                || len < limits.hang)
        }),
{
    law_quiet_is_counted_from_the_last_cut(limits, blocks);
}

/// Audio is cut only for a reason: a chunk that a block completes ends with that
/// block, is long enough, and ends in a pause or is too long to wait for one.
pub proof fn law_a_cut_has_a_reason<T>(limits: Limits, blocks: Seq<Block<T>>)
    requires
        blocks.len() > 0,
        chunks_of(limits, blocks) != chunks_of(limits, blocks.drop_last()),
    ensures
        ({
            let chunk = chunks_of(limits, blocks).last();
            &&& chunks_of(limits, blocks) == chunks_of(limits, blocks.drop_last()).push(chunk)
            &&& chunk == pending_of(limits, blocks.drop_last()).buffer + blocks.last().samples
            &&& limits.min <= chunk.len()
            &&& chunk.len() < limits.max ==> limits.hang <= quiet_end(blocks) && limits.hang
                <= chunk.len()
            &&& pending_of(limits, blocks).buffer.len() == 0
        }),
{
    law_quiet_is_counted_from_the_last_cut(limits, blocks.drop_last());
}

} // verus!
