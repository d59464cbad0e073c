use pod_attach::attach::{
    drain_attached, Channel, Directive, DrainReport, MuxError, Multiplexer, OutputMode,
    ProcessStatus, Sink, SinkWrite, StreamEvent,
};

fn chunk(channel: Channel, bytes: &[u8]) -> StreamEvent {
    StreamEvent::Chunk(channel, bytes.to_vec())
}

fn write(sink: Sink, origin: Channel, bytes: &[u8]) -> SinkWrite {
    SinkWrite { sink, origin, bytes: bytes.to_vec() }
}

fn from(writes: &[SinkWrite], origin: Channel) -> Vec<Vec<u8>> {
    writes.iter().filter(|w| w.origin == origin).map(|w| w.bytes.clone()).collect()
}

fn to(writes: &[SinkWrite], sink: Sink) -> Vec<Vec<u8>> {
    writes.iter().filter(|w| w.sink == sink).map(|w| w.bytes.clone()).collect()
}

/// Every way to interleave `[A, B]` on the primary channel with `[X, Y]` on
/// the secondary one, each channel ending right after its last chunk or at
/// the very end.
fn interleavings() -> Vec<Vec<StreamEvent>> {
    let orders: [[u8; 4]; 6] = [
        [0, 0, 1, 1],
        [0, 1, 0, 1],
        [0, 1, 1, 0],
        [1, 0, 0, 1],
        [1, 0, 1, 0],
        [1, 1, 0, 0],
    ];
    let mut sessions = Vec::new();
    for order in orders {
        for early_end in [false, true] {
            let mut primary = [b"A".as_slice(), b"B".as_slice()].into_iter();
            let mut secondary = [b"X".as_slice(), b"Y".as_slice()].into_iter();
            let mut events = Vec::new();
            let mut seen = [0, 0];
            for side in order {
                if side == 0 {
                    events.push(chunk(Channel::Primary, primary.next().unwrap()));
                } else {
                    events.push(chunk(Channel::Secondary, secondary.next().unwrap()));
                }
                seen[side as usize] += 1;
                if early_end && seen[side as usize] == 2 {
                    events.push(StreamEvent::End(if side == 0 {
                        Channel::Primary
                    } else {
                        Channel::Secondary
                    }));
                }
            }
            if !early_end {
                events.push(StreamEvent::End(Channel::Secondary));
                events.push(StreamEvent::End(Channel::Primary));
            }
            sessions.push(events);
        }
    }
    sessions
}

#[test]
fn every_interleaving_keeps_each_channel_in_order() {
    let sessions = interleavings();
    assert_eq!(sessions.len(), 12);
    for events in sessions {
        for mode in [OutputMode::Combined, OutputMode::Separate] {
            let report = drain_attached(&events, Some(ProcessStatus::Exited(0)), mode);
            assert_eq!(report.result, Ok(Some(ProcessStatus::Exited(0))));
            assert_eq!(report.writes.len(), 4);
            assert_eq!(from(&report.writes, Channel::Primary), vec![b"A".to_vec(), b"B".to_vec()]);
            assert_eq!(
                from(&report.writes, Channel::Secondary),
                vec![b"X".to_vec(), b"Y".to_vec()]
            );
        }
    }
}

#[test]
fn a_combined_sink_receives_the_chunks_as_they_arrive() {
    let events = vec![
        chunk(Channel::Secondary, b"X"),
        chunk(Channel::Primary, b"A"),
        chunk(Channel::Primary, b"B"),
        StreamEvent::End(Channel::Primary),
        chunk(Channel::Secondary, b"Y"),
        StreamEvent::End(Channel::Secondary),
    ];
    let report = drain_attached(&events, None, OutputMode::Combined);
    assert_eq!(
        report,
        DrainReport {
            writes: vec![
                write(Sink::Output, Channel::Secondary, b"X"),
                write(Sink::Output, Channel::Primary, b"A"),
                write(Sink::Output, Channel::Primary, b"B"),
                write(Sink::Output, Channel::Secondary, b"Y"),
            ],
            result: Ok(None),
        }
    );
    assert_eq!(to(&report.writes, Sink::Errors), Vec::<Vec<u8>>::new());
}

#[test]
fn separate_sinks_receive_their_own_channel() {
    let events = vec![
        chunk(Channel::Secondary, b"X"),
        chunk(Channel::Primary, b"A"),
        chunk(Channel::Secondary, b"Y"),
        chunk(Channel::Primary, b"B"),
        StreamEvent::End(Channel::Primary),
        StreamEvent::End(Channel::Secondary),
    ];
    let report = drain_attached(&events, Some(ProcessStatus::Signaled(9)), OutputMode::Separate);
    assert_eq!(report.result, Ok(Some(ProcessStatus::Signaled(9))));
    assert_eq!(
        report.writes,
        vec![
            write(Sink::Errors, Channel::Secondary, b"X"),
            write(Sink::Output, Channel::Primary, b"A"),
            write(Sink::Errors, Channel::Secondary, b"Y"),
            write(Sink::Output, Channel::Primary, b"B"),
        ]
    );
    assert_eq!(to(&report.writes, Sink::Output), vec![b"A".to_vec(), b"B".to_vec()]);
    assert_eq!(to(&report.writes, Sink::Errors), vec![b"X".to_vec(), b"Y".to_vec()]);
}

#[test]
fn chunks_are_forwarded_byte_for_byte() {
    let odd: Vec<u8> = vec![0, 255, b'\n', b'\r', 0xC3, b'\n', b'\n'];
    let events = vec![
        chunk(Channel::Primary, &odd),
        chunk(Channel::Primary, b""),
        chunk(Channel::Primary, b"no line feed"),
        StreamEvent::End(Channel::Primary),
        StreamEvent::End(Channel::Secondary),
    ];
    let report = drain_attached(&events, None, OutputMode::Combined);
    assert_eq!(
        from(&report.writes, Channel::Primary),
        vec![odd, Vec::new(), b"no line feed".to_vec()]
    );
}

#[test]
fn a_failed_read_is_dropped_and_ends_nothing() {
    let events = vec![
        chunk(Channel::Primary, b"A"),
        StreamEvent::Malformed(Channel::Primary),
        StreamEvent::Malformed(Channel::Secondary),
        chunk(Channel::Secondary, b"X"),
        chunk(Channel::Primary, b"B"),
        StreamEvent::End(Channel::Primary),
        StreamEvent::End(Channel::Secondary),
    ];
    let report = drain_attached(&events, Some(ProcessStatus::Exited(3)), OutputMode::Combined);
    assert_eq!(
        report,
        DrainReport {
            writes: vec![
                write(Sink::Output, Channel::Primary, b"A"),
                write(Sink::Output, Channel::Secondary, b"X"),
                write(Sink::Output, Channel::Primary, b"B"),
            ],
            result: Ok(Some(ProcessStatus::Exited(3))),
        }
    );
}

#[test]
fn a_chunk_after_the_end_of_its_channel_stops_the_session() {
    let events = vec![
        chunk(Channel::Primary, b"A"),
        StreamEvent::End(Channel::Primary),
        chunk(Channel::Secondary, b"X"),
        chunk(Channel::Primary, b"B"),
        chunk(Channel::Secondary, b"Y"),
        StreamEvent::End(Channel::Secondary),
    ];
    let report = drain_attached(&events, Some(ProcessStatus::Exited(0)), OutputMode::Separate);
    assert_eq!(
        report,
        DrainReport {
            writes: vec![
                write(Sink::Output, Channel::Primary, b"A"),
                write(Sink::Errors, Channel::Secondary, b"X"),
            ],
            result: Err(MuxError::ChannelClosed(Channel::Primary)),
        }
    );
}

#[test]
fn a_second_end_of_a_channel_stops_the_session() {
    let events = vec![
        StreamEvent::End(Channel::Secondary),
        StreamEvent::End(Channel::Secondary),
        StreamEvent::End(Channel::Primary),
    ];
    let report = drain_attached(&events, None, OutputMode::Combined);
    assert_eq!(
        report,
        DrainReport { writes: Vec::new(), result: Err(MuxError::ChannelClosed(Channel::Secondary)) }
    );
}

#[test]
fn the_status_is_not_read_while_a_channel_is_open() {
    let events = vec![chunk(Channel::Primary, b"A"), StreamEvent::End(Channel::Primary)];
    let report = drain_attached(&events, Some(ProcessStatus::Exited(0)), OutputMode::Combined);
    assert_eq!(
        report,
        DrainReport {
            writes: vec![write(Sink::Output, Channel::Primary, b"A")],
            result: Err(MuxError::ChannelsOpen),
        }
    );
    let nothing = drain_attached(&Vec::new(), Some(ProcessStatus::Exited(0)), OutputMode::Combined);
    assert_eq!(nothing, DrainReport { writes: Vec::new(), result: Err(MuxError::ChannelsOpen) });
}

#[test]
fn a_fresh_multiplexer_has_both_channels_open() {
    let mux = Multiplexer::new(OutputMode::Separate);
    assert_eq!(mux.mode(), OutputMode::Separate);
    assert!(mux.is_open(Channel::Primary));
    assert!(mux.is_open(Channel::Secondary));
    assert!(!mux.is_drained());
    assert!(!mux.status_taken());
}

#[test]
fn the_multiplexer_asks_for_the_status_when_the_second_channel_ends() {
    let mut mux = Multiplexer::new(OutputMode::Combined);
    assert_eq!(
        mux.on_event(chunk(Channel::Secondary, b"warn")),
        Ok(Directive::Forward(write(Sink::Output, Channel::Secondary, b"warn")))
    );
    assert_eq!(mux.on_event(StreamEvent::Malformed(Channel::Primary)), Ok(Directive::ReadOn));
    assert_eq!(mux.on_event(StreamEvent::End(Channel::Primary)), Ok(Directive::ReadOn));
    assert!(!mux.is_open(Channel::Primary));
    assert!(mux.is_open(Channel::Secondary));
    assert!(!mux.is_drained());
    assert_eq!(mux.on_event(StreamEvent::End(Channel::Secondary)), Ok(Directive::ReadStatus));
    assert!(mux.is_drained());
}

#[test]
fn the_multiplexer_routes_by_mode() {
    let mut combined = Multiplexer::new(OutputMode::Combined);
    let mut separate = Multiplexer::new(OutputMode::Separate);
    assert_eq!(
        combined.on_event(chunk(Channel::Primary, b"a")),
        Ok(Directive::Forward(write(Sink::Output, Channel::Primary, b"a")))
    );
    assert_eq!(
        combined.on_event(chunk(Channel::Secondary, b"b")),
        Ok(Directive::Forward(write(Sink::Output, Channel::Secondary, b"b")))
    );
    assert_eq!(
        separate.on_event(chunk(Channel::Primary, b"a")),
        Ok(Directive::Forward(write(Sink::Output, Channel::Primary, b"a")))
    );
    assert_eq!(
        separate.on_event(chunk(Channel::Secondary, b"b")),
        Ok(Directive::Forward(write(Sink::Errors, Channel::Secondary, b"b")))
    );
}

#[test]
fn an_event_on_a_closed_channel_changes_nothing() {
    let mut mux = Multiplexer::new(OutputMode::Combined);
    assert_eq!(mux.on_event(StreamEvent::End(Channel::Primary)), Ok(Directive::ReadOn));
    for event in [
        chunk(Channel::Primary, b"late"),
        StreamEvent::Malformed(Channel::Primary),
        StreamEvent::End(Channel::Primary),
    ] {
        assert_eq!(mux.on_event(event), Err(MuxError::ChannelClosed(Channel::Primary)));
        assert!(!mux.is_open(Channel::Primary));
        assert!(mux.is_open(Channel::Secondary));
        assert!(!mux.status_taken());
    }
}

#[test]
fn the_status_is_taken_once_and_only_after_both_channels_ended() {
    let mut mux = Multiplexer::new(OutputMode::Combined);
    assert_eq!(mux.take_status(), Err(MuxError::ChannelsOpen));
    assert_eq!(mux.on_event(StreamEvent::End(Channel::Secondary)), Ok(Directive::ReadOn));
    assert_eq!(mux.take_status(), Err(MuxError::ChannelsOpen));
    assert!(!mux.status_taken());
    assert_eq!(mux.on_event(StreamEvent::End(Channel::Primary)), Ok(Directive::ReadStatus));
    assert_eq!(mux.take_status(), Ok(()));
    assert!(mux.status_taken());
    assert_eq!(mux.take_status(), Err(MuxError::StatusTaken));
    assert_eq!(mux.take_status(), Err(MuxError::StatusTaken));
    assert_eq!(
        mux.on_event(chunk(Channel::Primary, b"late")),
        Err(MuxError::ChannelClosed(Channel::Primary))
    );
}

#[test]
fn both_channels_share_one_sink_by_default() {
    assert_eq!(OutputMode::default(), OutputMode::Combined);
}
