use vstd::prelude::*;

use crate::address::Address;
use crate::cipher::CipherSpec;
use crate::handshake::{Handshake, HandshakeStep};

verus! {

/// The four operations a caller can issue on a tunnel.
#[derive(Clone, Copy, Debug, PartialEq, Eq, Structural)]
pub enum IoOp {
    Read,
    Write,
    Flush,
    Close,
}

/// The failures the tunnel itself produces (transport errors are passed on
/// unchanged by the I/O layer).
#[derive(Clone, Copy, Debug, PartialEq, Eq, Structural)]
pub enum StreamError {
    /// The relay is known to be dead.
    BrokenPipe,
    /// The peer closed before its IV was complete.
    UnexpectedEof,
    /// A sealed chunk failed to authenticate.
    Authentication,
}

/// What the I/O layer must do for one operation.
#[derive(Clone, Copy, Debug, PartialEq, Eq, Structural)]
pub enum IoAction {
    /// Fail at once, without touching the transport.
    Fail(StreamError),
    /// Drive the handshake, then read through the decrypting reader.
    DriveHandshake,
    /// Read through the (already built) decrypting reader.
    ReadDecrypted,
    /// Write through the encrypting writer.
    WriteEncrypted,
    /// Flush the raw transport.
    FlushTransport,
    /// Close the raw transport.
    CloseTransport,
}

/// Whether an action performs I/O on the transport.
pub open spec fn touches_transport(a: IoAction) -> bool {
    !(a is Fail)
}

/// The action for `op` given the liveness flag and the handshake state.
pub open spec fn spec_action(alive: bool, op: IoOp, established: bool) -> IoAction {
    if !alive {
        IoAction::Fail(StreamError::BrokenPipe)
    } else {
        match op {
            IoOp::Read => if established {
                IoAction::ReadDecrypted
            } else {
                IoAction::DriveHandshake
            },
            IoOp::Write => IoAction::WriteEncrypted,
            IoOp::Flush => IoAction::FlushTransport,
            IoOp::Close => IoAction::CloseTransport,
        }
    }
}

/// Decides the action for one operation: a dead relay fails every operation
/// before anything else; a read is gated by the handshake, nothing else is.
pub fn next_action(alive: bool, op: IoOp, established: bool) -> (r: IoAction)
    ensures
        r == spec_action(alive, op, established),
{
    if !alive {
        return IoAction::Fail(StreamError::BrokenPipe);
    }
    match op {
        IoOp::Read => if established {
            IoAction::ReadDecrypted
        } else {
            IoAction::DriveHandshake
        },
        IoOp::Write => IoAction::WriteEncrypted,
        IoOp::Flush => IoAction::FlushTransport,
        IoOp::Close => IoAction::CloseTransport,
    }
}

/// Once the liveness flag reads false, every operation, in every handshake
/// state, fails with the same broken-pipe error and performs no transport I/O.
pub proof fn lemma_dead_stream_fails_all(op: IoOp, established: bool)
    ensures
        spec_action(false, op, established) == IoAction::Fail(StreamError::BrokenPipe),
        !touches_transport(spec_action(false, op, established)),
{
}

/// The write path never waits for the handshake: on a live tunnel a write,
/// flush or close acts the same whether the peer's IV has arrived or not.
pub proof fn lemma_write_path_ungated(op: IoOp)
    requires
        op != IoOp::Read,
    ensures
        spec_action(true, op, false) == spec_action(true, op, true),
{
}

/// What a read does after one drive of the handshake.
#[derive(Clone, Copy, Debug, PartialEq, Eq, Structural)]
pub enum ReadDecision {
    /// Suspend until the transport has more bytes.
    Suspend,
    /// Fail the read with this error.
    Fail(StreamError),
    /// Build the decrypting reader from the completed IV, then read through it.
    BuildReaderThenRead,
    /// Read through the existing decrypting reader.
    Read,
}

pub open spec fn spec_read_decision(step: HandshakeStep) -> ReadDecision {
    match step {
        HandshakeStep::Waiting => ReadDecision::Suspend,
        HandshakeStep::UnexpectedEof => ReadDecision::Fail(StreamError::UnexpectedEof),
        HandshakeStep::Completed { .. } => ReadDecision::BuildReaderThenRead,
        HandshakeStep::AlreadyEstablished => ReadDecision::Read,
    }
}

/// Maps a handshake step to what the read does next.
pub fn read_decision(step: &HandshakeStep) -> (r: ReadDecision)
    ensures
        r == spec_read_decision(*step),
{
    match step {
        HandshakeStep::Waiting => ReadDecision::Suspend,
        HandshakeStep::UnexpectedEof => ReadDecision::Fail(StreamError::UnexpectedEof),
        HandshakeStep::Completed { .. } => ReadDecision::BuildReaderThenRead,
        HandshakeStep::AlreadyEstablished => ReadDecision::Read,
    }
}

/// The bytes the writer puts on the wire for one sealed payload: the local IV
/// goes in front of the first one, and only of the first one.
pub open spec fn spec_framed(iv_sent: bool, iv: Seq<u8>, sealed: Seq<u8>) -> Seq<u8> {
    if iv_sent {
        sealed
    } else {
        iv + sealed
    }
}

/// How one framing relates the writer before, the sealed payload, the writer
/// after and the wire bytes.
pub open spec fn frame_post(pre: WriterPrefix, sealed: Seq<u8>, post: WriterPrefix, wire: Seq<u8>) -> bool {
    &&& wire == spec_framed(pre.spec_iv_sent(), pre.spec_iv(), sealed)
    &&& post.spec_iv_sent()
    &&& post.spec_iv() == pre.spec_iv()
}

/// The write side's framing: the local IV (or salt) the peer needs before any
/// ciphertext, and whether it has gone out yet.
pub struct WriterPrefix {
    iv: Vec<u8>,
    iv_sent: bool,
}

impl WriterPrefix {
    pub closed spec fn spec_iv(&self) -> Seq<u8> {
        self.iv@
    }

    pub closed spec fn spec_iv_sent(&self) -> bool {
        self.iv_sent
    }

    pub fn new(iv: Vec<u8>) -> (r: WriterPrefix)
        ensures
            r.spec_iv() == iv@,
            !r.spec_iv_sent(),
    {
        WriterPrefix { iv, iv_sent: false }
    }

    /// The wire bytes for one sealed payload.
    pub fn frame(&mut self, sealed: &[u8]) -> (r: Vec<u8>)
        ensures
            frame_post(*old(self), sealed@, *final(self), r@),
    {
        let mut out: Vec<u8> = Vec::new();
        if !self.iv_sent {
            let mut i: usize = 0;
            while i < self.iv.len()
                invariant
                    i <= self.iv@.len(),
                    out@ == self.iv@.subrange(0, i as int),
                decreases self.iv@.len() - i,
            {
                out.push(self.iv[i]);
                i = i + 1;
                assert(out@ =~= self.iv@.subrange(0, i as int));
            }
            assert(self.iv@.subrange(0, self.iv@.len() as int) =~= self.iv@);
        }
        let ghost head = out@;
        let mut j: usize = 0;
        while j < sealed.len()
            invariant
                j <= sealed@.len(),
                out@ == head + sealed@.subrange(0, j as int),
            decreases sealed@.len() - j,
        {
            out.push(sealed[j]);
            j = j + 1;
            assert(out@ =~= head + sealed@.subrange(0, j as int));
        }
        assert(sealed@.subrange(0, sealed@.len() as int) =~= sealed@);
        self.iv_sent = true;
        out
    }
}

/// What `TunnelCore::connect` returns for the given cipher, key, local IV and
/// destination: a fresh tunnel and the first plaintext to send.
pub open spec fn connect_post(cipher: CipherSpec, key: Seq<u8>, local_iv: Seq<u8>, addr: Address, core: TunnelCore, first: Seq<u8>) -> bool {
    &&& core.wf()
    &&& core.cipher == cipher
    &&& !core.handshake.spec_established()
    &&& core.handshake.spec_received() == Seq::<u8>::empty()
    &&& core.handshake.spec_key() == key
    &&& core.writer.spec_iv() == local_iv
    &&& !core.writer.spec_iv_sent()
    &&& first == addr.spec_encoding()
}

/// The decision state of one tunnel: its cipher and the read-side handshake.
/// The transport, the liveness flag and the cipher primitives live with the
/// I/O layer, which asks this state what to do.
pub struct TunnelCore {
    pub cipher: CipherSpec,
    pub handshake: Handshake,
    pub writer: WriterPrefix,
}

impl TunnelCore {
    pub open spec fn wf(&self) -> bool {
        &&& self.handshake.wf()
        &&& self.handshake.spec_cipher() == self.cipher
    }

    /// An accepted tunnel: the writer is ready with the local IV, the reader
    /// waits for the peer's.
    pub fn accept(cipher: CipherSpec, key: Vec<u8>, local_iv: Vec<u8>) -> (r: TunnelCore)
        ensures
            r.wf(),
            r.cipher == cipher,
            !r.handshake.spec_established(),
            r.handshake.spec_received() == Seq::<u8>::empty(),
            r.handshake.spec_key() == key@,
            r.writer.spec_iv() == local_iv@,
            !r.writer.spec_iv_sent(),
    {
        TunnelCore { cipher, handshake: Handshake::new(cipher, key), writer: WriterPrefix::new(local_iv) }
    }

    /// An outbound tunnel, set up as an accepted one, together with the
    /// plaintext that must be written before the tunnel is handed out: the
    /// canonical encoding of the destination.
    pub fn connect(cipher: CipherSpec, key: Vec<u8>, local_iv: Vec<u8>, addr: &Address) -> (r: (TunnelCore, Vec<u8>))
        requires
            addr.wf(),
        ensures
            connect_post(cipher, key@, local_iv@, *addr, r.0, r.1@),
    {
        let core = TunnelCore::accept(cipher, key, local_iv);
        let first = addr.to_bytes();
        (core, first)
    }

    /// The action for `op`, given the liveness flag as last read.
    pub fn action(&self, alive: bool, op: IoOp) -> (r: IoAction)
        ensures
            r == spec_action(alive, op, self.handshake.spec_established()),
    {
        next_action(alive, op, self.handshake.is_established())
    }
}

/// On an outbound tunnel the first bytes on the wire are the local IV, then
/// the sealed first plaintext, and that plaintext is the canonical encoding of
/// the destination: a correctly keyed peer that takes the IV and opens what
/// follows reads the IV, then the destination.
pub proof fn lemma_outbound_first_bytes(
    cipher: CipherSpec,
    key: Seq<u8>,
    iv: Seq<u8>,
    addr: Address,
    core: TunnelCore,
    first: Seq<u8>,
    sealed: Seq<u8>,
    writer_after: WriterPrefix,
    wire: Seq<u8>,
)
    requires
        connect_post(cipher, key, iv, addr, core, first),
        frame_post(core.writer, sealed, writer_after, wire),
    ensures
        first == addr.spec_encoding(),
        wire == iv + sealed,
        wire.subrange(0, iv.len() as int) == iv,
        wire.subrange(iv.len() as int, wire.len() as int) == sealed,
{
    assert((iv + sealed).subrange(0, iv.len() as int) =~= iv);
    assert((iv + sealed).subrange(iv.len() as int, (iv + sealed).len() as int) =~= sealed);
}

} // verus!
