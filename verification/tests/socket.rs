use irc_transport::SocketError;
use irc_transport::codec::FrameDecoder;
use irc_transport::socket::{
    ReadInput, SocketState, WriteAction, WriteInput, connected_event, read_step, write_step,
};

#[test]
fn test_disconnect_twice_is_unknown_the_second_time() {
    let mut state: SocketState<u32, u32> = SocketState::new();
    state.register("alpha".to_string(), 1, 7);
    assert_eq!(state.disconnect(&"alpha".to_string()), Ok(Some(7)));
    assert_eq!(
        state.disconnect(&"alpha".to_string()),
        Err(SocketError::UnknownConnection)
    );
}

#[test]
fn test_lookup_sender_known_and_unknown() {
    let mut state: SocketState<u32, u32> = SocketState::new();
    state.register("alpha".to_string(), 11, 0);
    assert_eq!(state.lookup_sender(&"alpha".to_string()), Ok(&11));
    assert_eq!(
        state.lookup_sender(&"beta".to_string()),
        Err(SocketError::UnknownConnection)
    );
}

#[test]
fn test_register_duplicate_overwrites() {
    let mut state: SocketState<u32, u32> = SocketState::new();
    state.register("alpha".to_string(), 1, 2);
    state.register("alpha".to_string(), 3, 4);
    assert_eq!(state.lookup_sender(&"alpha".to_string()), Ok(&3));
    assert_eq!(state.disconnect(&"alpha".to_string()), Ok(Some(4)));
    assert!(!state.contains(&"alpha".to_string()));
}

#[test]
fn test_registry_keeps_other_connections() {
    let mut state: SocketState<u32, u32> = SocketState::new();
    state.register("a".to_string(), 1, 2);
    state.register("b".to_string(), 3, 4);
    assert_eq!(state.disconnect(&"a".to_string()), Ok(Some(2)));
    assert!(state.contains(&"b".to_string()));
    assert_eq!(state.lookup_sender(&"b".to_string()), Ok(&3));
}

#[test]
fn test_read_step_data_emits_frames_in_order() {
    let id = "c1".to_string();
    let mut dec = FrameDecoder::new();
    let step = read_step(&id, &mut dec, ReadInput::Data(b"PING\r\nPO".to_vec()));
    assert!(!step.done);
    assert_eq!(step.payloads.len(), 1);
    assert_eq!(step.payloads[0].id, "c1");
    let ev = &step.payloads[0].event;
    assert_eq!(ev.message.as_ref().unwrap().data, b"PING\r\n".to_vec());
    assert!(ev.error.is_none());
    assert!(ev.connected.is_none());
}

#[test]
fn test_read_step_close_flushes_remainder_then_announces_once() {
    let id = "c1".to_string();
    let mut dec = FrameDecoder::new();
    let step = read_step(&id, &mut dec, ReadInput::Data(b"PING\r\nPO".to_vec()));
    assert_eq!(step.payloads.len(), 1);
    let step = read_step(&id, &mut dec, ReadInput::Closed);
    assert!(step.done);
    assert_eq!(step.payloads.len(), 2);
    assert_eq!(
        step.payloads[0].event.message.as_ref().unwrap().data,
        b"PO".to_vec()
    );
    assert_eq!(step.payloads[1].event.connected, Some(false));
    assert!(step.payloads[1].event.message.is_none());
    assert!(step.payloads[1].event.error.is_none());
}

#[test]
fn test_read_step_close_with_empty_buffer_announces_exactly_once() {
    let id = "c1".to_string();
    let mut dec = FrameDecoder::new();
    let step = read_step(&id, &mut dec, ReadInput::Closed);
    assert!(step.done);
    assert_eq!(step.payloads.len(), 1);
    assert_eq!(step.payloads[0].event.connected, Some(false));
}

#[test]
fn test_read_step_failure_emits_error_then_close() {
    let id = "c1".to_string();
    let mut dec = FrameDecoder::new();
    let step = read_step(&id, &mut dec, ReadInput::Failed("Read error: reset".to_string()));
    assert!(step.done);
    assert_eq!(step.payloads.len(), 2);
    let err_ev = &step.payloads[0].event;
    assert_eq!(err_ev.error.as_deref(), Some("Read error: reset"));
    assert!(err_ev.connected.is_none());
    assert!(err_ev.message.is_none());
    let close_ev = &step.payloads[1].event;
    assert_eq!(close_ev.connected, Some(false));
    assert!(close_ev.error.is_none());
    assert!(close_ev.message.is_none());
}

#[test]
fn test_connected_event_shape() {
    let p = connected_event(&"c9".to_string());
    assert_eq!(p.id, "c9");
    assert_eq!(p.event.connected, Some(true));
    assert!(p.event.message.is_none());
    assert!(p.event.error.is_none());
}

#[test]
fn test_write_step_terminates_payloads_exactly_once() {
    match write_step(WriteInput::Payload("NICK x".to_string())) {
        WriteAction::Write(w) => assert_eq!(w, "NICK x\r\n"),
        _ => panic!("expected a write"),
    }
    match write_step(WriteInput::Payload("NICK x\r\n".to_string())) {
        WriteAction::Write(w) => assert_eq!(w, "NICK x\r\n"),
        _ => panic!("expected a write"),
    }
    assert!(matches!(
        write_step(WriteInput::Shutdown),
        WriteAction::Shutdown
    ));
}

#[test]
fn test_write_step_failure_is_terminal() {
    assert!(matches!(
        write_step(WriteInput::Failed("Write error: broken pipe".to_string())),
        WriteAction::Stop
    ));
    assert!(matches!(
        write_step(WriteInput::Failed("Flush error: broken pipe".to_string())),
        WriteAction::Stop
    ));
}

#[test]
fn test_echo_round_trip_pipeline() {
    // The pure half of an echo session: the write step terminates the
    // outbound line, the echoed bytes come back through the read step as
    // one message event, and an explicit disconnect emits no close
    // announcement — only the read task's own termination does, once.
    let id = "echo".to_string();
    let mut state: SocketState<u32, u32> = SocketState::new();
    state.register(id.clone(), 1, 2);

    let wire = match write_step(WriteInput::Payload("PING\r\n".to_string())) {
        WriteAction::Write(w) => w,
        _ => panic!("expected a write"),
    };
    assert_eq!(wire, "PING\r\n");

    let mut dec = FrameDecoder::new();
    let step = read_step(&id, &mut dec, ReadInput::Data(wire.into_bytes()));
    assert_eq!(step.payloads.len(), 1);
    assert_eq!(
        step.payloads[0].event.message.as_ref().unwrap().data,
        b"PING\r\n".to_vec()
    );
    assert!(!step.done);

    // Disconnect consumes the entry and produces no event at all.
    assert_eq!(state.disconnect(&id), Ok(Some(2)));

    // Only the read task's own end announces the close, exactly once.
    let step = read_step(&id, &mut dec, ReadInput::Closed);
    let closes = step
        .payloads
        .iter()
        .filter(|p| p.event.connected == Some(false))
        .count();
    assert_eq!(closes, 1);
}

#[test]
fn test_registry_with_real_channels_preserves_send_order() {
    let (tx, mut rx) = tokio::sync::mpsc::channel::<String>(100);
    let (stx, mut srx) = tokio::sync::oneshot::channel::<()>();
    let mut state: SocketState<
        tokio::sync::mpsc::Sender<String>,
        tokio::sync::oneshot::Sender<()>,
    > = SocketState::new();
    state.register("c1".to_string(), tx, stx);

    // Several concurrent-style sends through the looked-up sender arrive in
    // enqueue order; draining them through the write step yields each
    // payload exactly once, in that order, terminated exactly once.
    let sender = state
        .lookup_sender(&"c1".to_string())
        .expect("registered")
        .clone();
    let payloads = ["A\r\n", "B", "C", "D\r\n", "E"];
    for p in payloads {
        sender.try_send(p.to_string()).expect("queue open");
    }
    let mut wire = String::new();
    for _ in payloads {
        let data = rx.try_recv().expect("queued payload");
        match write_step(WriteInput::Payload(data)) {
            WriteAction::Write(w) => wire.push_str(&w),
            _ => panic!("expected a write"),
        }
    }
    assert_eq!(wire, "A\r\nB\r\nC\r\nD\r\nE\r\n");

    // Disconnect hands back the unfired shutdown signal; firing it reaches
    // the write task's receiver.
    let signal = state
        .disconnect(&"c1".to_string())
        .expect("registered")
        .expect("signal still unfired");
    signal.send(()).expect("receiver alive");
    assert!(srx.try_recv().is_ok());
}
