use whoami_server::echo::{EchoTransfer, StreamAction, StreamEvent};

fn emit(t: &mut EchoTransfer, chunk: &[u8]) -> Vec<u8> {
    match t.step(StreamEvent::Data(chunk.to_vec())) {
        StreamAction::Emit(out) => out,
        _ => panic!("a data chunk must be emitted"),
    }
}

#[test]
fn echo_returns_the_body_unchanged() {
    let mut t = EchoTransfer::begin();
    assert_eq!(emit(&mut t, b"abc"), b"abc".to_vec());
    assert!(matches!(t.step(StreamEvent::End), StreamAction::Finish));
}

#[test]
fn echo_preserves_bytes_across_chunking() {
    let body: Vec<u8> = (0u8..=255).collect();
    for chunk_size in [1usize, 3, 7, 64, 300] {
        let mut t = EchoTransfer::begin();
        let mut rebuilt = Vec::new();
        for chunk in body.chunks(chunk_size) {
            rebuilt.extend_from_slice(&emit(&mut t, chunk));
        }
        assert!(matches!(t.step(StreamEvent::End), StreamAction::Finish));
        assert_eq!(rebuilt, body);
    }
}

#[test]
fn echo_empty_body() {
    let mut t = EchoTransfer::begin();
    assert_eq!(emit(&mut t, b""), Vec::<u8>::new());
    assert!(matches!(t.step(StreamEvent::End), StreamAction::Finish));
}

#[test]
fn failed_source_aborts_the_response() {
    let mut t = EchoTransfer::begin();
    let _ = emit(&mut t, b"partial");
    assert!(matches!(t.step(StreamEvent::Failed), StreamAction::Abort));
}
