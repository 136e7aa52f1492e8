use ssclient::address::Address;
use ssclient::cipher::{CipherCategory, CipherSpec};
use ssclient::handshake::HandshakeStep;
use ssclient::tunnel::{
    next_action, read_decision, IoAction, IoOp, ReadDecision, StreamError, TunnelCore,
    WriterPrefix,
};

fn aead() -> CipherSpec {
    CipherSpec { category: CipherCategory::Aead, iv_size: 12, salt_size: 32 }
}

#[test]
fn dead_stream_fails_every_operation() {
    for op in [IoOp::Read, IoOp::Write, IoOp::Flush, IoOp::Close] {
        for established in [false, true] {
            assert_eq!(
                next_action(false, op, established),
                IoAction::Fail(StreamError::BrokenPipe)
            );
        }
    }
}

#[test]
fn live_stream_routes_operations() {
    assert_eq!(next_action(true, IoOp::Read, false), IoAction::DriveHandshake);
    assert_eq!(next_action(true, IoOp::Read, true), IoAction::ReadDecrypted);
    assert_eq!(next_action(true, IoOp::Write, false), IoAction::WriteEncrypted);
    assert_eq!(next_action(true, IoOp::Flush, false), IoAction::FlushTransport);
    assert_eq!(next_action(true, IoOp::Close, true), IoAction::CloseTransport);
}

#[test]
fn read_decisions() {
    assert_eq!(read_decision(&HandshakeStep::Waiting), ReadDecision::Suspend);
    assert_eq!(
        read_decision(&HandshakeStep::UnexpectedEof),
        ReadDecision::Fail(StreamError::UnexpectedEof)
    );
    assert_eq!(read_decision(&HandshakeStep::AlreadyEstablished), ReadDecision::Read);
}

#[test]
fn killing_a_tunnel_mid_handshake() {
    let mut core = TunnelCore::accept(aead(), vec![1; 32], vec![2; 32]);
    assert_eq!(core.action(true, IoOp::Read), IoAction::DriveHandshake);
    let salt = vec![7u8; 32];
    assert!(matches!(core.handshake.feed(&salt), HandshakeStep::Completed { .. }));
    assert_eq!(core.action(true, IoOp::Read), IoAction::ReadDecrypted);
    assert_eq!(core.action(false, IoOp::Read), IoAction::Fail(StreamError::BrokenPipe));
    assert_eq!(core.action(false, IoOp::Write), IoAction::Fail(StreamError::BrokenPipe));
}

#[test]
fn writer_sends_iv_once() {
    let mut w = WriterPrefix::new(vec![0xaa, 0xbb]);
    assert_eq!(w.frame(&[1, 2, 3]), vec![0xaa, 0xbb, 1, 2, 3]);
    assert_eq!(w.frame(&[4]), vec![4]);
    assert_eq!(w.frame(&[]), Vec::<u8>::new());
}

#[test]
fn outbound_preamble_is_iv_then_address() {
    let addr = Address::DomainName { host: b"twitter.com".to_vec(), port: 443 };
    let (mut core, first) = TunnelCore::connect(aead(), vec![1; 32], vec![5; 32], &addr);
    assert_eq!(first, addr.to_bytes());
    assert!(!core.handshake.is_established());
    let wire = core.writer.frame(&first);
    assert_eq!(&wire[..32], &[5u8; 32][..]);
    assert_eq!(&wire[32..], &first[..]);
}
