use tcptransfer::coordinator::{ReceiverPhase, SenderPhase};

#[test]
fn sender_steps_in_order() {
    let order = [
        SenderPhase::Init,
        SenderPhase::OpenFile,
        SenderPhase::BindListen,
        SenderPhase::PrintEndpoint,
        SenderPhase::Accept,
        SenderPhase::TlsAccept,
        SenderPhase::WriteSize,
        SenderPhase::CopyPayload,
        SenderPhase::Report,
        SenderPhase::Done,
    ];
    let mut phase = SenderPhase::Init;
    for expected in order {
        assert_eq!(phase, expected);
        assert_eq!(phase.is_terminal(), expected == SenderPhase::Done);
        phase = phase.advance(true);
    }
    assert_eq!(phase, SenderPhase::Done);
    assert!(phase.succeeded());
    assert_eq!(phase.exit_code(), 0);
}

#[test]
fn receiver_steps_in_order() {
    let order = [
        ReceiverPhase::Init,
        ReceiverPhase::ReadPeer,
        ReceiverPhase::Connect,
        ReceiverPhase::TlsConnect,
        ReceiverPhase::ReadSize,
        ReceiverPhase::OpenSink,
        ReceiverPhase::CopyPayload,
        ReceiverPhase::Report,
        ReceiverPhase::Done,
    ];
    let mut phase = ReceiverPhase::Init;
    for expected in order {
        assert_eq!(phase, expected);
        assert_eq!(phase.is_terminal(), expected == ReceiverPhase::Done);
        phase = phase.advance(true);
    }
    assert_eq!(phase, ReceiverPhase::Done);
    assert!(phase.succeeded());
    assert_eq!(phase.exit_code(), 0);
}

#[test]
fn sender_failure_is_final() {
    let failed = SenderPhase::TlsAccept.advance(false);
    assert_eq!(failed, SenderPhase::Failed);
    assert!(failed.is_terminal());
    assert!(!failed.succeeded());
    assert_eq!(failed.exit_code(), 1);
    assert_eq!(failed.advance(true), SenderPhase::Failed);
    assert_eq!(failed.advance(false), SenderPhase::Failed);
}

#[test]
fn receiver_failure_is_final() {
    let failed = ReceiverPhase::CopyPayload.advance(false);
    assert_eq!(failed, ReceiverPhase::Failed);
    assert!(failed.is_terminal());
    assert!(!failed.succeeded());
    assert_eq!(failed.exit_code(), 1);
    assert_eq!(failed.advance(true), ReceiverPhase::Failed);
}

#[test]
fn finished_transfer_stays_finished() {
    assert_eq!(SenderPhase::Done.advance(false), SenderPhase::Done);
    assert_eq!(ReceiverPhase::Done.advance(false), ReceiverPhase::Done);
}

#[test]
fn malformed_peer_ends_before_connecting() {
    let phase = ReceiverPhase::Init.advance(true);
    assert_eq!(phase, ReceiverPhase::ReadPeer);
    let phase = phase.advance(false);
    assert_eq!(phase, ReceiverPhase::Failed);
    assert_ne!(phase.exit_code(), 0);
    assert_eq!(phase.advance(true), ReceiverPhase::Failed);
}

#[test]
fn sender_writes_the_size_right_after_the_handshake() {
    assert_eq!(SenderPhase::TlsAccept.advance(true), SenderPhase::WriteSize);
    assert_eq!(SenderPhase::Accept.advance(true), SenderPhase::TlsAccept);
    assert_eq!(ReceiverPhase::TlsConnect.advance(true), ReceiverPhase::ReadSize);
}
