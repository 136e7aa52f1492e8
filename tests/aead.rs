use ssclient::aead::{length_header, split_chunks, ChunkOutput, ChunkPhase, ChunkReader, MAX_PAYLOAD};
use ssclient::tunnel::StreamError;

#[test]
fn split_spans_several_chunks() {
    let data: Vec<u8> = (0..(2 * MAX_PAYLOAD + 5)).map(|i| (i % 251) as u8).collect();
    let chunks = split_chunks(&data);
    assert_eq!(chunks.len(), 3);
    assert_eq!(chunks[0].len(), MAX_PAYLOAD);
    assert_eq!(chunks[1].len(), MAX_PAYLOAD);
    assert_eq!(chunks[2].len(), 5);
    assert_eq!(chunks.concat(), data);
    assert!(split_chunks(&[]).is_empty());
}

#[test]
fn length_header_bytes() {
    assert_eq!(length_header(0x1234), vec![0x12, 0x34]);
    assert_eq!(length_header(MAX_PAYLOAD), vec![0x3f, 0xff]);
}

#[test]
fn reader_round_trip_over_chunks() {
    let data: Vec<u8> = (0..(MAX_PAYLOAD + 10)).map(|i| (i % 7) as u8).collect();
    let mut reader = ChunkReader::new(16);
    let mut out = Vec::new();
    for chunk in split_chunks(&data) {
        assert_eq!(reader.wanted(), Some(2 + 16));
        assert!(matches!(reader.on_open(Some(length_header(chunk.len()))), ChunkOutput::HeaderRead));
        assert_eq!(reader.phase(), ChunkPhase::Payload(chunk.len()));
        assert_eq!(reader.wanted(), Some(chunk.len() + 16));
        match reader.on_open(Some(chunk)) {
            ChunkOutput::Plaintext(p) => out.extend_from_slice(&p),
            other => panic!("unexpected {:?}", other),
        }
    }
    assert_eq!(out, data);
    assert_eq!(reader.counter(), 4);
}

#[test]
fn authentication_failure_is_fatal() {
    let mut reader = ChunkReader::new(16);
    assert!(matches!(reader.on_open(Some(vec![0, 3])), ChunkOutput::HeaderRead));
    assert!(matches!(
        reader.on_open(None),
        ChunkOutput::Fail(StreamError::Authentication)
    ));
    assert_eq!(reader.phase(), ChunkPhase::Failed);
    assert_eq!(reader.wanted(), None);
    assert!(matches!(
        reader.on_open(Some(vec![1, 2, 3])),
        ChunkOutput::Fail(StreamError::Authentication)
    ));
}
