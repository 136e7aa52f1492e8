use vstd::prelude::*;

use crate::cipher::CipherSpec;

verus! {

/// The read side of a tunnel before and after the peer's IV (or salt) has
/// arrived.
///
/// While waiting, the bytes received so far are kept together with the cipher
/// and key; once the material is complete they are handed out, exactly once,
/// so that the decrypting reader can be built from them.
pub struct Handshake {
    received: Vec<u8>,
    need: usize,
    cipher: CipherSpec,
    key: Vec<u8>,
    established: bool,
}

/// What one drive of the handshake decided.
pub enum HandshakeStep {
    /// More IV bytes are needed: the read suspends until the transport is ready.
    Waiting,
    /// The transport reached its end before the IV was complete: a fatal error.
    UnexpectedEof,
    /// The IV is complete: build the decrypting reader from these values.
    Completed { iv: Vec<u8>, cipher: CipherSpec, key: Vec<u8> },
    /// The handshake was already done: nothing to do.
    AlreadyEstablished,
}

/// How one drive of the handshake with the bytes `data` relates the state
/// before, the state after and the step reported.
pub open spec fn feed_post(pre: Handshake, data: Seq<u8>, post: Handshake, r: HandshakeStep) -> bool {
    &&& post.wf()
    &&& post.spec_cipher() == pre.spec_cipher()
    &&& pre.spec_established() ==> r is AlreadyEstablished && post == pre
    &&& !pre.spec_established() ==> {
        let all = pre.spec_received() + data;
        if all.len() == pre.spec_need() {
            &&& r matches HandshakeStep::Completed { iv, cipher, key }
            &&& iv@ == all
            &&& cipher == pre.spec_cipher()
            &&& key@ == pre.spec_key()
            &&& post.spec_established()
            &&& post.spec_received() == Seq::<u8>::empty()
        } else if data.len() == 0 {
            r is UnexpectedEof && post == pre
        } else {
            &&& r is Waiting
            &&& !post.spec_established()
            &&& post.spec_received() == all
            &&& post.spec_key() == pre.spec_key()
        }
    }
}

impl Handshake {
    pub closed spec fn spec_received(&self) -> Seq<u8> {
        self.received@
    }

    pub closed spec fn spec_need(&self) -> nat {
        self.need as nat
    }

    pub closed spec fn spec_cipher(&self) -> CipherSpec {
        self.cipher
    }

    pub closed spec fn spec_key(&self) -> Seq<u8> {
        self.key@
    }

    pub closed spec fn spec_established(&self) -> bool {
        self.established
    }

    /// Well-formed: never more bytes than the IV needs, and the IV length is
    /// the one the cipher prescribes; an established handshake keeps nothing.
    pub open spec fn wf(&self) -> bool {
        &&& self.spec_need() == self.spec_cipher().spec_init_len()
        &&& !self.spec_established() ==> self.spec_received().len() < self.spec_need()
            || self.spec_need() == 0
        &&& self.spec_received().len() <= self.spec_need()
    }

    /// Bytes still missing from the peer's IV (zero once established).
    pub open spec fn spec_remaining(&self) -> nat {
        if self.spec_established() {
            0
        } else {
            (self.spec_need() - self.spec_received().len()) as nat
        }
    }

    /// A fresh handshake that waits for the peer's IV of the cipher's length.
    pub fn new(cipher: CipherSpec, key: Vec<u8>) -> (r: Handshake)
        ensures
            r.wf(),
            !r.spec_established(),
            r.spec_received() == Seq::<u8>::empty(),
            r.spec_cipher() == cipher,
            r.spec_key() == key@,
    {
        let need = cipher.init_len();
        Handshake { received: Vec::new(), need, cipher, key, established: false }
    }

    pub fn is_established(&self) -> (r: bool)
        ensures
            r == self.spec_established(),
    {
        self.established
    }

    /// How many bytes the next transport read may at most deliver.
    pub fn remaining(&self) -> (r: usize)
        requires
            self.wf(),
        ensures
            r == self.spec_remaining(),
    {
        if self.established {
            0
        } else {
            self.need - self.received.len()
        }
    }

    /// Drives the handshake with the bytes one transport read delivered
    /// (`data` empty when the read reported the end of the stream).
    pub fn feed(&mut self, data: &[u8]) -> (r: HandshakeStep)
        requires
            old(self).wf(),
            data@.len() <= old(self).spec_remaining(),
        ensures
            feed_post(*old(self), data@, *final(self), r),
    {
        if self.established {
            return HandshakeStep::AlreadyEstablished;
        }
        if self.received.len() < self.need && data.len() == 0 {
            return HandshakeStep::UnexpectedEof;
        }
        let ghost before = self.received@;
        let mut i: usize = 0;
        while i < data.len()
            invariant
                i <= data@.len(),
                self.received@ == before + data@.subrange(0, i as int),
                self.need == old(self).need,
                self.cipher == old(self).cipher,
                self.key == old(self).key,
                !self.established,
                before.len() + data@.len() <= self.need,
            decreases data@.len() - i,
        {
            self.received.push(data[i]);
            i = i + 1;
        }
        assert(data@.subrange(0, data@.len() as int) == data@);
        if self.received.len() == self.need {
            let mut iv: Vec<u8> = Vec::new();
            let mut key: Vec<u8> = Vec::new();
            std::mem::swap(&mut iv, &mut self.received);
            std::mem::swap(&mut key, &mut self.key);
            self.established = true;
            HandshakeStep::Completed { iv, cipher: self.cipher, key }
        } else {
            HandshakeStep::Waiting
        }
    }
}

/// A run of successive drives: `states[i]` is driven with `chunks[i]`, reports
/// `steps[i]` and becomes `states[i + 1]`, each chunk no longer than what the
/// handshake still needs.
pub open spec fn is_run(states: Seq<Handshake>, chunks: Seq<Seq<u8>>, steps: Seq<HandshakeStep>) -> bool {
    &&& states.len() == chunks.len() + 1
    &&& steps.len() == chunks.len()
    &&& states[0].wf()
    &&& forall|i: int| 0 <= i < chunks.len() ==> #[trigger] chunks[i].len() <= states[i].spec_remaining()
    &&& forall|i: int| 0 <= i < chunks.len() ==> feed_post(#[trigger] states[i], chunks[i], states[i + 1], steps[i])
}

/// Before the peer's IV is complete a non-empty read suspends (it reports
/// `Waiting`, not an error and not a result) and the handshake stays open.
pub proof fn lemma_partial_iv_suspends(pre: Handshake, data: Seq<u8>, post: Handshake, r: HandshakeStep)
    requires
        pre.wf(),
        !pre.spec_established(),
        data.len() > 0,
        pre.spec_received().len() + data.len() < pre.spec_need(),
        feed_post(pre, data, post, r),
    ensures
        r is Waiting,
        !post.spec_established(),
{
}

/// Once a state of a run is established, every later one is.
proof fn lemma_established_stays(states: Seq<Handshake>, chunks: Seq<Seq<u8>>, steps: Seq<HandshakeStep>, a: int, k: int)
    requires
        is_run(states, chunks, steps),
        0 <= a <= k < states.len(),
        states[a].spec_established(),
    ensures
        states[k].spec_established(),
    decreases k - a,
{
    if a < k {
        assert(feed_post(states[a], chunks[a], states[a + 1], steps[a]));
        lemma_established_stays(states, chunks, steps, a + 1, k);
    }
}

/// In any run of drives the handshake completes at most once: after the step
/// that hands out the IV, every later state is established and every later
/// step reports `AlreadyEstablished`.
pub proof fn lemma_completes_once(states: Seq<Handshake>, chunks: Seq<Seq<u8>>, steps: Seq<HandshakeStep>, i: int)
    requires
        is_run(states, chunks, steps),
        0 <= i < steps.len(),
        steps[i] is Completed,
    ensures
        forall|k: int| i < k < states.len() ==> #[trigger] states[k].spec_established(),
        forall|j: int| i < j < steps.len() ==> #[trigger] steps[j] is AlreadyEstablished,
{
    assert(feed_post(states[i], chunks[i], states[i + 1], steps[i]));
    assert forall|k: int| i < k < states.len() implies #[trigger] states[k].spec_established() by {
        lemma_established_stays(states, chunks, steps, i + 1, k);
    }
    assert forall|j: int| i < j < steps.len() implies #[trigger] steps[j] is AlreadyEstablished by {
        assert(feed_post(states[j], chunks[j], states[j + 1], steps[j]));
        assert(states[j].spec_established());
    }
}

} // verus!
