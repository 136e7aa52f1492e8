use vstd::prelude::*;

use crate::tunnel::StreamError;

verus! {

/// Largest payload one sealed chunk carries.
pub const MAX_PAYLOAD: usize = 0x3FFF;

/// The concatenation of a sequence of byte sequences.
pub open spec fn concat(chunks: Seq<Seq<u8>>) -> Seq<u8>
    decreases chunks.len(),
{
    if chunks.len() == 0 {
        Seq::<u8>::empty()
    } else {
        concat(chunks.drop_last()) + chunks.last()
    }
}

/// Splits a plaintext into the payloads of successive chunks, each non-empty
/// and at most `MAX_PAYLOAD` long, which together give back the plaintext.
pub fn split_chunks(data: &[u8]) -> (r: Vec<Vec<u8>>)
    ensures
        concat(r@.map_values(|c: Vec<u8>| c@)) == data@,
        forall|i: int| 0 <= i < r@.len() ==> 0 < #[trigger] r@[i]@.len() <= MAX_PAYLOAD,
        forall|i: int| 0 <= i < r@.len() - 1 ==> #[trigger] r@[i]@.len() == MAX_PAYLOAD,
{
    let mut out: Vec<Vec<u8>> = Vec::new();
    let mut pos: usize = 0;
    while pos < data.len()
        invariant
            pos <= data@.len(),
            concat(out@.map_values(|c: Vec<u8>| c@)) == data@.subrange(0, pos as int),
            forall|i: int| 0 <= i < out@.len() ==> 0 < #[trigger] out@[i]@.len() <= MAX_PAYLOAD,
            forall|i: int| 0 <= i < out@.len() ==> #[trigger] out@[i]@.len() == MAX_PAYLOAD
                || (i == out@.len() - 1 && pos == data@.len()),
        decreases data@.len() - pos,
    {
        let end: usize = if data.len() - pos > MAX_PAYLOAD {
            pos + MAX_PAYLOAD
        } else {
            data.len()
        };
        let mut chunk: Vec<u8> = Vec::new();
        let mut i: usize = pos;
        while i < end
            invariant
                pos <= i <= end <= data@.len(),
                chunk@ == data@.subrange(pos as int, i as int),
            decreases end - i,
        {
            chunk.push(data[i]);
            i = i + 1;
            assert(chunk@ =~= data@.subrange(pos as int, i as int));
        }
        let ghost before = out@;
        out.push(chunk);
        proof {
            let views = out@.map_values(|c: Vec<u8>| c@);
            assert(views.drop_last() =~= before.map_values(|c: Vec<u8>| c@));
            assert(data@.subrange(0, end as int) =~= data@.subrange(0, pos as int)
                + data@.subrange(pos as int, end as int));
        }
        pos = end;
    }
    assert(data@.subrange(0, data@.len() as int) =~= data@);
    assert forall|i: int| 0 <= i < out@.len() - 1 implies #[trigger] out@[i]@.len() == MAX_PAYLOAD by {
        assert(out@[i]@.len() == MAX_PAYLOAD || (i == out@.len() - 1 && pos == data@.len()));
    }
    out
}

/// The two-byte length header of a chunk, most significant byte first.
pub open spec fn spec_length_header(n: nat) -> Seq<u8> {
    seq![(n / 256) as u8, (n % 256) as u8]
}

/// The payload length a header announces (the top two bits are ignored).
pub open spec fn spec_header_length(b0: u8, b1: u8) -> nat {
    ((b0 as nat * 256 + b1 as nat) % 0x4000) as nat
}

pub fn length_header(n: usize) -> (r: Vec<u8>)
    requires
        n <= MAX_PAYLOAD,
    ensures
        r@ == spec_length_header(n as nat),
{
    let mut r: Vec<u8> = Vec::new();
    r.push((n / 256) as u8);
    r.push((n % 256) as u8);
    assert(r@ =~= spec_length_header(n as nat));
    r
}

/// A header read back gives the length it was written for.
pub proof fn lemma_length_header_round_trip(n: nat)
    requires
        n <= MAX_PAYLOAD,
    ensures
        spec_header_length(spec_length_header(n)[0], spec_length_header(n)[1]) == n,
{
    let h = spec_length_header(n);
    assert(h[0] as nat == n / 256);
    assert(h[1] as nat == n % 256);
}

/// Which part of a chunk the reader opens next.
#[derive(Clone, Copy, Debug, PartialEq, Eq, Structural)]
pub enum ChunkPhase {
    /// The sealed two-byte length header.
    Length,
    /// The sealed payload of the given length.
    Payload(usize),
    /// A chunk failed to authenticate: the stream is dead.
    Failed,
}

/// What one opening produced.
#[derive(Debug)]
pub enum ChunkOutput {
    /// A header was opened: the payload length is known.
    HeaderRead,
    /// A payload was opened: deliver this plaintext.
    Plaintext(Vec<u8>),
    /// Authentication failed (now or earlier): the stream must be discarded.
    Fail(StreamError),
}

/// The decision state of the chunked reader: what to open next, how many
/// sealed bytes that takes, and the nonce counter for the next opening.
pub struct ChunkReader {
    phase: ChunkPhase,
    tag_len: usize,
    counter: u64,
}

/// How one opening relates the reader state before, the state after and the
/// output. `opened` is the plaintext the cipher returned, `None` when the
/// sealed bytes failed to authenticate.
pub open spec fn open_post(pre: ChunkReader, opened: Option<Seq<u8>>, post: ChunkReader, r: ChunkOutput) -> bool {
    &&& post.spec_tag_len() == pre.spec_tag_len()
    &&& match (pre.spec_phase(), opened) {
        (ChunkPhase::Failed, _) => r == ChunkOutput::Fail(StreamError::Authentication) && post == pre,
        (_, None) => r == ChunkOutput::Fail(StreamError::Authentication) && post.spec_phase()
            == ChunkPhase::Failed,
        (ChunkPhase::Length, Some(p)) => if p.len() == 2 {
            &&& r is HeaderRead
            &&& post.spec_phase() == ChunkPhase::Payload(spec_header_length(p[0], p[1]) as usize)
            &&& post.spec_counter() == (pre.spec_counter() + 1) % 0x1_0000_0000_0000_0000
        } else {
            r == ChunkOutput::Fail(StreamError::Authentication) && post.spec_phase()
                == ChunkPhase::Failed
        },
        (ChunkPhase::Payload(_), Some(p)) => {
            &&& r matches ChunkOutput::Plaintext(v) && v@ == p
            &&& post.spec_phase() == ChunkPhase::Length
            &&& post.spec_counter() == (pre.spec_counter() + 1) % 0x1_0000_0000_0000_0000
        },
    }
}

impl ChunkReader {
    pub closed spec fn spec_phase(&self) -> ChunkPhase {
        self.phase
    }

    pub closed spec fn spec_tag_len(&self) -> nat {
        self.tag_len as nat
    }

    pub closed spec fn spec_counter(&self) -> nat {
        self.counter as nat
    }

    /// A reader that expects a length header first, with nonce counter zero.
    pub fn new(tag_len: usize) -> (r: ChunkReader)
        ensures
            r.spec_phase() == ChunkPhase::Length,
            r.spec_tag_len() == tag_len,
            r.spec_counter() == 0,
    {
        ChunkReader { phase: ChunkPhase::Length, tag_len, counter: 0 }
    }

    pub fn phase(&self) -> (r: ChunkPhase)
        ensures
            r == self.spec_phase(),
    {
        self.phase
    }

    /// Nonce counter for the next opening.
    pub fn counter(&self) -> (r: u64)
        ensures
            r == self.spec_counter(),
    {
        self.counter
    }

    /// Sealed bytes the next opening needs (none once failed).
    pub fn wanted(&self) -> (r: Option<usize>)
        requires
            self.spec_tag_len() + MAX_PAYLOAD <= usize::MAX,
        ensures
            r == match self.spec_phase() {
                ChunkPhase::Length => Some((2 + self.spec_tag_len()) as usize),
                ChunkPhase::Payload(n) => Some((n % 0x4000 + self.spec_tag_len()) as usize),
                ChunkPhase::Failed => None::<usize>,
            },
    {
        match self.phase {
            ChunkPhase::Length => Some(2 + self.tag_len),
            ChunkPhase::Payload(n) => Some(n % 0x4000 + self.tag_len),
            ChunkPhase::Failed => None,
        }
    }

    /// Takes the result of opening the sealed bytes `wanted` asked for.
    pub fn on_open(&mut self, opened: Option<Vec<u8>>) -> (r: ChunkOutput)
        ensures
            open_post(*old(self), match opened { Some(v) => Some(v@), None => None }, *final(self), r),
    {
        match self.phase {
            ChunkPhase::Failed => ChunkOutput::Fail(StreamError::Authentication),
            ChunkPhase::Length => match opened {
                Some(p) => if p.len() == 2 {
                    let n: usize = ((p[0] as usize) * 256 + p[1] as usize) % 0x4000;
                    self.phase = ChunkPhase::Payload(n);
                    self.counter = self.counter.wrapping_add(1);
                    ChunkOutput::HeaderRead
                } else {
                    self.phase = ChunkPhase::Failed;
                    ChunkOutput::Fail(StreamError::Authentication)
                },
                None => {
                    self.phase = ChunkPhase::Failed;
                    ChunkOutput::Fail(StreamError::Authentication)
                },
            },
            ChunkPhase::Payload(_) => match opened {
                Some(p) => {
                    self.phase = ChunkPhase::Length;
                    self.counter = self.counter.wrapping_add(1);
                    ChunkOutput::Plaintext(p)
                },
                None => {
                    self.phase = ChunkPhase::Failed;
                    ChunkOutput::Fail(StreamError::Authentication)
                },
            },
        }
    }
}

/// A run of openings: `states[i]` takes `opened[i]`, outputs `outs[i]` and
/// becomes `states[i + 1]`.
pub open spec fn is_open_run(states: Seq<ChunkReader>, opened: Seq<Option<Seq<u8>>>, outs: Seq<ChunkOutput>) -> bool {
    &&& states.len() == opened.len() + 1
    &&& outs.len() == opened.len()
    &&& forall|i: int| 0 <= i < opened.len() ==> open_post(#[trigger] states[i], opened[i], states[i + 1], outs[i])
}

/// The openings a correctly keyed peer obtains for a sequence of chunk
/// payloads: each chunk's length header, then the chunk itself.
pub open spec fn faithful_openings(chunks: Seq<Seq<u8>>, opened: Seq<Option<Seq<u8>>>) -> bool {
    &&& opened.len() == 2 * chunks.len()
    &&& forall|k: int| 0 <= k < chunks.len() ==> {
        &&& 0 < #[trigger] chunks[k].len() <= MAX_PAYLOAD
        &&& opened[2 * k] == Some(spec_length_header(chunks[k].len()))
        &&& opened[2 * k + 1] == Some(chunks[k])
    }
}

/// Round trip of the chunked framing: a reader that starts at a header and is
/// given the faithful openings of some chunks outputs, for each chunk, a
/// header event and then exactly that chunk's plaintext.
pub proof fn lemma_chunks_read_back(states: Seq<ChunkReader>, opened: Seq<Option<Seq<u8>>>, outs: Seq<ChunkOutput>, chunks: Seq<Seq<u8>>)
    requires
        is_open_run(states, opened, outs),
        faithful_openings(chunks, opened),
        states[0].spec_phase() == ChunkPhase::Length,
    ensures
        forall|k: int| 0 <= k < chunks.len() ==> #[trigger] outs[2 * k] is HeaderRead,
        forall|k: int| 0 <= k < chunks.len() ==> (#[trigger] outs[2 * k + 1] matches ChunkOutput::Plaintext(v)
            && v@ == chunks[k]),
{
    assert forall|k: int| 0 <= k < chunks.len() implies #[trigger] outs[2 * k] is HeaderRead && (outs[2 * k + 1] matches ChunkOutput::Plaintext(v)
            && v@ == chunks[k]) by {
        lemma_chunk_boundary(states, opened, outs, chunks, k);
        lemma_one_chunk(states, opened, outs, chunks, k);
    }
}

proof fn lemma_one_chunk(states: Seq<ChunkReader>, opened: Seq<Option<Seq<u8>>>, outs: Seq<ChunkOutput>, chunks: Seq<Seq<u8>>, k: int)
    requires
        is_open_run(states, opened, outs),
        faithful_openings(chunks, opened),
        0 <= k < chunks.len(),
        states[2 * k].spec_phase() == ChunkPhase::Length,
    ensures
        outs[2 * k] is HeaderRead,
        outs[2 * k + 1] matches ChunkOutput::Plaintext(v) && v@ == chunks[k],
        states[2 * k + 2].spec_phase() == ChunkPhase::Length,
{
    let c = chunks[k];
    assert(0 < c.len() <= MAX_PAYLOAD);
    assert(open_post(states[2 * k], opened[2 * k], states[2 * k + 1], outs[2 * k]));
    lemma_length_header_round_trip(c.len());
    let h = spec_length_header(c.len());
    assert(states[2 * k + 1].spec_phase() == ChunkPhase::Payload(spec_header_length(h[0], h[1]) as usize));
    assert(open_post(states[2 * k + 1], opened[2 * k + 1], states[2 * k + 1 + 1], outs[2 * k + 1]));
}

proof fn lemma_chunk_boundary(states: Seq<ChunkReader>, opened: Seq<Option<Seq<u8>>>, outs: Seq<ChunkOutput>, chunks: Seq<Seq<u8>>, k: int)
    requires
        is_open_run(states, opened, outs),
        faithful_openings(chunks, opened),
        states[0].spec_phase() == ChunkPhase::Length,
        0 <= k <= chunks.len(),
    ensures
        states[2 * k].spec_phase() == ChunkPhase::Length,
    decreases k,
{
    if k > 0 {
        lemma_chunk_boundary(states, opened, outs, chunks, k - 1);
        lemma_one_chunk(states, opened, outs, chunks, k - 1);
        assert(2 * (k - 1) + 2 == 2 * k);
    }
}

/// A chunk that fails to authenticate is fatal: from that opening on, every
/// output of the run is an authentication error and no plaintext is released.
pub proof fn lemma_auth_failure_is_final(states: Seq<ChunkReader>, opened: Seq<Option<Seq<u8>>>, outs: Seq<ChunkOutput>, i: int)
    requires
        is_open_run(states, opened, outs),
        0 <= i < opened.len(),
        opened[i] is None,
    ensures
        forall|j: int| i <= j < outs.len() ==> #[trigger] outs[j] == ChunkOutput::Fail(StreamError::Authentication),
{
    assert(open_post(states[i], opened[i], states[i + 1], outs[i]));
    assert forall|j: int| i <= j < outs.len() implies #[trigger] outs[j] == ChunkOutput::Fail(StreamError::Authentication) by {
        if j > i {
            lemma_failed_stays(states, opened, outs, i + 1, j);
            assert(open_post(states[j], opened[j], states[j + 1], outs[j]));
        }
    }
}

proof fn lemma_failed_stays(states: Seq<ChunkReader>, opened: Seq<Option<Seq<u8>>>, outs: Seq<ChunkOutput>, a: int, k: int)
    requires
        is_open_run(states, opened, outs),
        0 <= a <= k < states.len(),
        states[a].spec_phase() == ChunkPhase::Failed,
    ensures
        states[k].spec_phase() == ChunkPhase::Failed,
    decreases k - a,
{
    if a < k {
        assert(open_post(states[a], opened[a], states[a + 1], outs[a]));
        lemma_failed_stays(states, opened, outs, a + 1, k);
    }
}

} // verus!
