use ssclient::cipher::{CipherCategory, CipherSpec};
use ssclient::handshake::{Handshake, HandshakeStep};

fn chacha() -> CipherSpec {
    CipherSpec { category: CipherCategory::Stream, iv_size: 12, salt_size: 32 }
}

#[test]
fn init_len_follows_category() {
    assert_eq!(chacha().init_len(), 12);
    let aead = CipherSpec { category: CipherCategory::Aead, iv_size: 12, salt_size: 32 };
    assert_eq!(aead.init_len(), 32);
}

#[test]
fn partial_iv_waits_then_completes_once() {
    let mut h = Handshake::new(chacha(), vec![9, 9]);
    assert_eq!(h.remaining(), 12);
    let first: Vec<u8> = (0..5).collect();
    assert!(matches!(h.feed(&first), HandshakeStep::Waiting));
    assert!(!h.is_established());
    assert_eq!(h.remaining(), 7);
    let rest: Vec<u8> = (5..12).collect();
    match h.feed(&rest) {
        HandshakeStep::Completed { iv, cipher, key } => {
            assert_eq!(iv, (0..12).collect::<Vec<u8>>());
            assert_eq!(cipher, chacha());
            assert_eq!(key, vec![9, 9]);
        }
        _ => panic!("handshake should complete"),
    }
    assert!(h.is_established());
    assert_eq!(h.remaining(), 0);
    for _ in 0..3 {
        assert!(matches!(h.feed(&[]), HandshakeStep::AlreadyEstablished));
    }
}

#[test]
fn eof_before_iv_is_an_error() {
    let mut h = Handshake::new(chacha(), vec![]);
    assert!(matches!(h.feed(&[1, 2, 3]), HandshakeStep::Waiting));
    assert!(matches!(h.feed(&[]), HandshakeStep::UnexpectedEof));
    assert!(!h.is_established());
    assert_eq!(h.remaining(), 9);
}

#[test]
fn zero_length_iv_completes_without_bytes() {
    let none = CipherSpec { category: CipherCategory::Stream, iv_size: 0, salt_size: 0 };
    let mut h = Handshake::new(none, vec![1]);
    assert!(matches!(h.feed(&[]), HandshakeStep::Completed { .. }));
    assert!(h.is_established());
}
