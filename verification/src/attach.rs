//! Forwarding the output of an attached process.
//!
//! An attached process has two output channels and one terminal status. The
//! chunks of both channels are forwarded as they arrive, each as it is, and
//! the status is read once, when both channels have ended.

use vstd::prelude::*;
use vstd::slice::slice_to_vec;

verus! {

/// One of the two output channels of an attached process.
#[derive(Clone, Copy, Debug, PartialEq, Eq, Structural)]
pub enum Channel {
    /// The standard output of the process.
    Primary,
    /// The standard error of the process.
    Secondary,
}

/// A destination for forwarded bytes.
#[derive(Clone, Copy, Debug, PartialEq, Eq, Structural)]
pub enum Sink {
    Output,
    Errors,
}

/// Whether both channels share one sink.
#[derive(Clone, Copy, Debug, PartialEq, Eq, Structural)]
pub enum OutputMode {
    /// Both channels are merged into [`Sink::Output`], in order of arrival.
    Combined,
    /// The primary channel goes to [`Sink::Output`], the secondary one to
    /// [`Sink::Errors`].
    Separate,
}

impl Default for OutputMode {
    /// Both channels share one sink unless the caller asks otherwise.
    fn default() -> (mode: Self)
        ensures
            mode == OutputMode::Combined,
    {
        OutputMode::Combined
    }
}

/// How an attached process ended.
#[derive(Clone, Copy, Debug, PartialEq, Eq, Structural)]
pub enum ProcessStatus {
    /// The process returned this exit code.
    Exited(i32),
    /// The process was ended by this signal.
    Signaled(i32),
}

/// What the caller did against the order of an attached session.
#[derive(Clone, Copy, Debug, PartialEq, Eq, Structural)]
pub enum MuxError {
    /// Something arrived on a channel that had already ended.
    ChannelClosed(Channel),
    /// The status was asked for while a channel was still open.
    ChannelsOpen,
    /// The status was asked for a second time.
    StatusTaken,
}

/// Something that a channel of an attached process delivered.
#[derive(Clone, Debug, PartialEq, Eq)]
pub enum StreamEvent {
    /// A chunk of bytes, as it was read.
    Chunk(Channel, Vec<u8>),
    /// A read on the channel failed; there is no chunk.
    Malformed(Channel),
    /// The channel has ended.
    End(Channel),
}

/// Mathematical model of a [`StreamEvent`].
pub enum StreamEventView {
    Chunk(Channel, Seq<u8>),
    Malformed(Channel),
    End(Channel),
}

impl View for StreamEvent {
    type V = StreamEventView;

    open spec fn view(&self) -> StreamEventView {
        match self {
            StreamEvent::Chunk(channel, bytes) => StreamEventView::Chunk(*channel, bytes@),
            StreamEvent::Malformed(channel) => StreamEventView::Malformed(*channel),
            StreamEvent::End(channel) => StreamEventView::End(*channel),
        }
    }
}

impl DeepView for StreamEvent {
    type V = StreamEventView;

    open spec fn deep_view(&self) -> StreamEventView {
        self@
    }
}

/// One chunk on its way to a sink.
#[derive(Clone, Debug, PartialEq, Eq)]
pub struct SinkWrite {
    pub sink: Sink,
    /// The channel that delivered the chunk.
    pub origin: Channel,
    pub bytes: Vec<u8>,
}

/// Mathematical model of a [`SinkWrite`].
pub struct SinkWriteView {
    pub sink: Sink,
    pub origin: Channel,
    pub bytes: Seq<u8>,
}

impl View for SinkWrite {
    type V = SinkWriteView;

    open spec fn view(&self) -> SinkWriteView {
        SinkWriteView { sink: self.sink, origin: self.origin, bytes: self.bytes@ }
    }
}

impl DeepView for SinkWrite {
    type V = SinkWriteView;

    open spec fn deep_view(&self) -> SinkWriteView {
        self@
    }
}

/// What the caller is to do after an event.
#[derive(Clone, Debug, PartialEq, Eq)]
pub enum Directive {
    /// Write the chunk to its sink, then read on.
    Forward(SinkWrite),
    /// Nothing is to be written; read on.
    ReadOn,
    /// Both channels have ended: take the status.
    ReadStatus,
}

/// Mathematical model of a [`Directive`].
pub enum DirectiveView {
    Forward(SinkWriteView),
    ReadOn,
    ReadStatus,
}

impl View for Directive {
    type V = DirectiveView;

    open spec fn view(&self) -> DirectiveView {
        match self {
            Directive::Forward(write) => DirectiveView::Forward(write@),
            Directive::ReadOn => DirectiveView::ReadOn,
            Directive::ReadStatus => DirectiveView::ReadStatus,
        }
    }
}

/// The sink that a channel's chunks go to.
pub open spec fn route(mode: OutputMode, channel: Channel) -> Sink {
    match (mode, channel) {
        (OutputMode::Separate, Channel::Secondary) => Sink::Errors,
        _ => Sink::Output,
    }
}

/// The channel that an event came from.
pub open spec fn channel_of(event: StreamEventView) -> Channel {
    match event {
        StreamEventView::Chunk(channel, _) => channel,
        StreamEventView::Malformed(channel) => channel,
        StreamEventView::End(channel) => channel,
    }
}

/// The progress of an attached session: which channels are still open, and
/// whether the status has been taken.
#[derive(Debug, PartialEq, Eq)]
pub struct Multiplexer {
    mode: OutputMode,
    primary_open: bool,
    secondary_open: bool,
    status_taken: bool,
}

/// Mathematical model of a [`Multiplexer`].
pub struct MultiplexerView {
    pub mode: OutputMode,
    pub primary_open: bool,
    pub secondary_open: bool,
    pub status_taken: bool,
}

impl MultiplexerView {
    /// The session as it is right after attaching.
    pub open spec fn attached(mode: OutputMode) -> MultiplexerView {
        MultiplexerView { mode, primary_open: true, secondary_open: true, status_taken: false }
    }

    pub open spec fn is_open(self, channel: Channel) -> bool {
        match channel {
            Channel::Primary => self.primary_open,
            Channel::Secondary => self.secondary_open,
        }
    }

    /// Whether both channels have ended.
    pub open spec fn is_drained(self) -> bool {
        !self.primary_open && !self.secondary_open
    }

    pub open spec fn close(self, channel: Channel) -> MultiplexerView {
        match channel {
            Channel::Primary => MultiplexerView { primary_open: false, ..self },
            Channel::Secondary => MultiplexerView { secondary_open: false, ..self },
        }
    }

    /// The session after `event`, and what the caller is to do; or the
    /// error, where the event came on a channel that had ended.
    pub open spec fn step(self, event: StreamEventView) -> Result<
        (MultiplexerView, DirectiveView),
        MuxError,
    > {
        let channel = channel_of(event);
        if !self.is_open(channel) {
            Err(MuxError::ChannelClosed(channel))
        } else {
            match event {
                StreamEventView::Chunk(_, bytes) => Ok(
                    (
                        self,
                        DirectiveView::Forward(
                            SinkWriteView { sink: route(self.mode, channel), origin: channel, bytes },
                        ),
                    ),
                ),
                StreamEventView::Malformed(_) => Ok((self, DirectiveView::ReadOn)),
                StreamEventView::End(_) => Ok(
                    (
                        self.close(channel),
                        if self.close(channel).is_drained() {
                            DirectiveView::ReadStatus
                        } else {
                            DirectiveView::ReadOn
                        },
                    ),
                ),
            }
        }
    }

    /// The session after the status was asked for; or the error, where
    /// that was too early or not the first time.
    pub open spec fn status_step(self) -> Result<MultiplexerView, MuxError> {
        if !self.is_drained() {
            Err(MuxError::ChannelsOpen)
        } else if self.status_taken {
            Err(MuxError::StatusTaken)
        } else {
            Ok(MultiplexerView { status_taken: true, ..self })
        }
    }
}

impl View for Multiplexer {
    type V = MultiplexerView;

    closed spec fn view(&self) -> MultiplexerView {
        MultiplexerView {
            mode: self.mode,
            primary_open: self.primary_open,
            secondary_open: self.secondary_open,
            status_taken: self.status_taken,
        }
    }
}

impl Multiplexer {
    /// The session right after attaching: both channels open, the status
    /// not taken.
    pub fn new(mode: OutputMode) -> (mux: Self)
        ensures
            mux@ == MultiplexerView::attached(mode),
    {
        Multiplexer { mode, primary_open: true, secondary_open: true, status_taken: false }
    }

    pub fn mode(&self) -> (mode: OutputMode)
        ensures
            mode == self@.mode,
    {
        self.mode
    }

    pub fn is_open(&self, channel: Channel) -> (open: bool)
        ensures
            open == self@.is_open(channel),
    {
        match channel {
            Channel::Primary => self.primary_open,
            Channel::Secondary => self.secondary_open,
        }
    }

    /// Whether both channels have ended.
    pub fn is_drained(&self) -> (drained: bool)
        ensures
            drained == self@.is_drained(),
    {
        !self.primary_open && !self.secondary_open
    }

    pub fn status_taken(&self) -> (taken: bool)
        ensures
            taken == self@.status_taken,
    {
        self.status_taken
    }

    /// Takes in one event and says what to do about it.
    ///
    /// A chunk is forwarded as it is, to the sink of its channel. A failed
    /// read writes nothing and ends nothing. The end of a channel closes
    /// it; when it was the second to end, the status is due. An event on a
    /// closed channel is an error and changes nothing.
    pub fn on_event(&mut self, event: StreamEvent) -> (answer: Result<Directive, MuxError>)
        ensures
            match old(self)@.step(event@) {
                Ok((next, directive)) => final(self)@ == next && answer.is_ok()
                    && answer.unwrap()@ == directive,
                Err(error) => final(self)@ == old(self)@ && answer == Err::<Directive, MuxError>(
                    error,
                ),
            },
    {
        match event {
            StreamEvent::Chunk(channel, bytes) => {
                if !self.is_open(channel) {
                    return Err(MuxError::ChannelClosed(channel));
                }
                let sink = match (self.mode, channel) {
                    (OutputMode::Separate, Channel::Secondary) => Sink::Errors,
                    _ => Sink::Output,
                };
                Ok(Directive::Forward(SinkWrite { sink, origin: channel, bytes }))
            },
            StreamEvent::Malformed(channel) => {
                if !self.is_open(channel) {
                    return Err(MuxError::ChannelClosed(channel));
                }
                Ok(Directive::ReadOn)
            },
            StreamEvent::End(channel) => {
                if !self.is_open(channel) {
                    return Err(MuxError::ChannelClosed(channel));
                }
                match channel {
                    Channel::Primary => {
                        self.primary_open = false;
                    },
                    Channel::Secondary => {
                        self.secondary_open = false;
                    },
                }
                if self.is_drained() {
                    Ok(Directive::ReadStatus)
                } else {
                    Ok(Directive::ReadOn)
                }
            },
        }
    }

    /// Marks the status as taken. This succeeds once, and only when both
    /// channels have ended; otherwise nothing changes.
    pub fn take_status(&mut self) -> (answer: Result<(), MuxError>)
        ensures
            match old(self)@.status_step() {
                Ok(next) => final(self)@ == next && answer.is_ok(),
                Err(error) => final(self)@ == old(self)@ && answer == Err::<(), MuxError>(error),
            },
    {
        if !self.is_drained() {
            Err(MuxError::ChannelsOpen)
        } else if self.status_taken {
            Err(MuxError::StatusTaken)
        } else {
            self.status_taken = true;
            Ok(())
        }
    }
}

/// Whether `channel` has ended among the first `at` events.
pub open spec fn ended_before(events: Seq<StreamEventView>, channel: Channel, at: int) -> bool {
    exists|j: int| 0 <= j < at && (#[trigger] events[j]) == StreamEventView::End(channel)
}

/// The position of the first event at or after `from` that came on a
/// channel which had ended before it, or the number of events if there is
/// none.
pub open spec fn first_violation(events: Seq<StreamEventView>, from: int) -> int
    decreases events.len() - from,
{
    if from < 0 || from >= events.len() {
        events.len() as int
    } else if ended_before(events, channel_of(events[from]), from) {
        from
    } else {
        first_violation(events, from + 1)
    }
}

/// The writes that a run of events calls for: one for each chunk, in order
/// of arrival, to the sink of its channel.
pub open spec fn forwarded(events: Seq<StreamEventView>, mode: OutputMode) -> Seq<SinkWriteView>
    decreases events.len(),
{
    if events.len() == 0 {
        Seq::empty()
    } else {
        let before = forwarded(events.drop_last(), mode);
        match events.last() {
            StreamEventView::Chunk(channel, bytes) => before.push(
                SinkWriteView { sink: route(mode, channel), origin: channel, bytes },
            ),
            _ => before,
        }
    }
}

/// What came of a whole attached session.
#[derive(Debug, PartialEq, Eq)]
pub struct DrainReport {
    /// The chunks that were forwarded, in order.
    pub writes: Vec<SinkWrite>,
    /// The status of the process, if it gave one; or what went against the
    /// order of the session.
    pub result: Result<Option<ProcessStatus>, MuxError>,
}

/// Mathematical model of a [`DrainReport`].
pub struct DrainReportView {
    pub writes: Seq<SinkWriteView>,
    pub result: Result<Option<ProcessStatus>, MuxError>,
}

impl View for DrainReport {
    type V = DrainReportView;

    open spec fn view(&self) -> DrainReportView {
        DrainReportView { writes: self.writes.deep_view(), result: self.result }
    }
}

/// What comes of a session that delivers `events` and whose process then
/// reports `status`.
///
/// Events are taken in up to the first one on an ended channel, which is
/// the error. Where there is none, the status is read if both channels have
/// ended, and asking for it is the error if one has not.
pub open spec fn drain_outcome(
    events: Seq<StreamEventView>,
    status: Option<ProcessStatus>,
    mode: OutputMode,
) -> DrainReportView {
    let stop = first_violation(events, 0);
    DrainReportView {
        writes: forwarded(events.take(stop), mode),
        result: if stop < events.len() {
            Err(MuxError::ChannelClosed(channel_of(events[stop])))
        } else if !ended_before(events, Channel::Primary, events.len() as int) || !ended_before(
            events,
            Channel::Secondary,
            events.len() as int,
        ) {
            Err(MuxError::ChannelsOpen)
        } else {
            Ok(status)
        },
    }
}

/// No event before the first violation came on an ended channel, and the
/// violation did.
pub proof fn lemma_first_violation(events: Seq<StreamEventView>, from: int)
    requires
        0 <= from <= events.len(),
    ensures
        from <= first_violation(events, from) <= events.len(),
        forall|i: int|
            from <= i < first_violation(events, from) ==> !ended_before(
                events,
                channel_of(#[trigger] events[i]),
                i,
            ),
        first_violation(events, from) < events.len() ==> ended_before(
            events,
            channel_of(events[first_violation(events, from)]),
            first_violation(events, from),
        ),
    decreases events.len() - from,
{
    if from < events.len() && !ended_before(events, channel_of(events[from]), from) {
        lemma_first_violation(events, from + 1);
    }
}

proof fn lemma_ended_before_next(events: Seq<StreamEventView>, channel: Channel, at: int)
    requires
        0 <= at < events.len(),
    ensures
        ended_before(events, channel, at + 1) == (ended_before(events, channel, at) || events[at]
            == StreamEventView::End(channel)),
{
    if ended_before(events, channel, at + 1) {
        let j = choose|j: int|
            0 <= j < at + 1 && (#[trigger] events[j]) == StreamEventView::End(channel);
        if j < at {
            assert(ended_before(events, channel, at));
        }
    }
    if ended_before(events, channel, at) {
        let j = choose|j: int| 0 <= j < at && (#[trigger] events[j]) == StreamEventView::End(channel);
        assert(0 <= j < at + 1 && events[j] == StreamEventView::End(channel));
    }
    if events[at] == StreamEventView::End(channel) {
        assert(0 <= at < at + 1 && events[at] == StreamEventView::End(channel));
    }
}

proof fn lemma_forwarded_next(events: Seq<StreamEventView>, mode: OutputMode, at: int)
    requires
        0 <= at < events.len(),
    ensures
        forwarded(events.take(at + 1), mode) == match events[at] {
            StreamEventView::Chunk(channel, bytes) => forwarded(events.take(at), mode).push(
                SinkWriteView { sink: route(mode, channel), origin: channel, bytes },
            ),
            _ => forwarded(events.take(at), mode),
        },
{
    assert(events.take(at + 1).drop_last() =~= events.take(at));
}

fn copy_event(event: &StreamEvent) -> (copy: StreamEvent)
    ensures
        copy@ == event@,
{
    match event {
        StreamEvent::Chunk(channel, bytes) => StreamEvent::Chunk(
            *channel,
            slice_to_vec(bytes.as_slice()),
        ),
        StreamEvent::Malformed(channel) => StreamEvent::Malformed(*channel),
        StreamEvent::End(channel) => StreamEvent::End(*channel),
    }
}

/// Runs a whole attached session: takes in `events` in order, collects what
/// is to be written, and reads the status, which is `status`, once both
/// channels have ended.
pub fn drain_attached(
    events: &Vec<StreamEvent>,
    status: Option<ProcessStatus>,
    mode: OutputMode,
) -> (report: DrainReport)
    ensures
        report@ == drain_outcome(events.deep_view(), status, mode),
{
    let ghost all = events.deep_view();
    let mut mux = Multiplexer::new(mode);
    let mut writes: Vec<SinkWrite> = Vec::new();
    let mut i: usize = 0;
    assert(writes.deep_view() =~= forwarded(all.take(0), mode));
    while i < events.len()
        invariant
            all == events.deep_view(),
            i <= events.len(),
            mux@.mode == mode,
            !mux@.status_taken,
            mux@.primary_open == !ended_before(all, Channel::Primary, i as int),
            mux@.secondary_open == !ended_before(all, Channel::Secondary, i as int),
            first_violation(all, 0) == first_violation(all, i as int),
            writes.deep_view() == forwarded(all.take(i as int), mode),
        decreases events.len() - i,
    {
        let event = copy_event(&events[i]);
        proof {
            lemma_ended_before_next(all, Channel::Primary, i as int);
            lemma_ended_before_next(all, Channel::Secondary, i as int);
            lemma_forwarded_next(all, mode, i as int);
        }
        let ghost before = writes.deep_view();
        match mux.on_event(event) {
            Err(error) => {
                return DrainReport { writes, result: Err(error) };
            },
            Ok(Directive::Forward(write)) => {
                writes.push(write);
                assert(writes.deep_view() =~= before.push(write@));
            },
            Ok(_) => {},
        }
        i += 1;
    }
    assert(all.take(i as int) =~= all);
    match mux.take_status() {
        Ok(()) => DrainReport { writes, result: Ok(status) },
        Err(error) => DrainReport { writes, result: Err(error) },
    }
}

/// The chunks that `channel` delivered, in order.
pub open spec fn chunks_on(events: Seq<StreamEventView>, channel: Channel) -> Seq<Seq<u8>>
    decreases events.len(),
{
    if events.len() == 0 {
        Seq::empty()
    } else {
        let before = chunks_on(events.drop_last(), channel);
        match events.last() {
            StreamEventView::Chunk(from, bytes) => if from == channel {
                before.push(bytes)
            } else {
                before
            },
            _ => before,
        }
    }
}

/// The chunks among `writes` that `channel` delivered, in order.
pub open spec fn written_from(writes: Seq<SinkWriteView>, channel: Channel) -> Seq<Seq<u8>>
    decreases writes.len(),
{
    if writes.len() == 0 {
        Seq::empty()
    } else {
        let before = written_from(writes.drop_last(), channel);
        if writes.last().origin == channel {
            before.push(writes.last().bytes)
        } else {
            before
        }
    }
}

/// The chunks among `writes` that go to `sink`, in order.
pub open spec fn written_to(writes: Seq<SinkWriteView>, sink: Sink) -> Seq<Seq<u8>>
    decreases writes.len(),
{
    if writes.len() == 0 {
        Seq::empty()
    } else {
        let before = written_to(writes.drop_last(), sink);
        if writes.last().sink == sink {
            before.push(writes.last().bytes)
        } else {
            before
        }
    }
}

/// The chunks that either channel delivered, in order of arrival.
pub open spec fn arrived(events: Seq<StreamEventView>) -> Seq<Seq<u8>>
    decreases events.len(),
{
    if events.len() == 0 {
        Seq::empty()
    } else {
        let before = arrived(events.drop_last());
        match events.last() {
            StreamEventView::Chunk(_, bytes) => before.push(bytes),
            _ => before,
        }
    }
}

/// Whether a session keeps the order: nothing arrives on a channel after
/// its end, and both channels end.
pub open spec fn orderly(events: Seq<StreamEventView>) -> bool {
    &&& first_violation(events, 0) == events.len()
    &&& ended_before(events, Channel::Primary, events.len() as int)
    &&& ended_before(events, Channel::Secondary, events.len() as int)
}

/// Forwarding neither adds a chunk, nor loses one, nor changes the order
/// within a channel: what is written from a channel is what it delivered.
/// Each chunk goes to the sink of its channel.
pub proof fn lemma_forwarded_keeps_each_channel(events: Seq<StreamEventView>, mode: OutputMode)
    ensures
        written_from(forwarded(events, mode), Channel::Primary) == chunks_on(
            events,
            Channel::Primary,
        ),
        written_from(forwarded(events, mode), Channel::Secondary) == chunks_on(
            events,
            Channel::Secondary,
        ),
        forwarded(events, mode).len() == chunks_on(events, Channel::Primary).len() + chunks_on(
            events,
            Channel::Secondary,
        ).len(),
        forall|k: int|
            0 <= k < forwarded(events, mode).len() ==> (#[trigger] forwarded(events, mode)[k]).sink
                == route(mode, forwarded(events, mode)[k].origin),
    decreases events.len(),
{
    if events.len() > 0 {
        lemma_forwarded_keeps_each_channel(events.drop_last(), mode);
        let before = forwarded(events.drop_last(), mode);
        match events.last() {
            StreamEventView::Chunk(channel, bytes) => {
                let write = SinkWriteView { sink: route(mode, channel), origin: channel, bytes };
                assert(before.push(write).drop_last() =~= before);
            },
            _ => {},
        }
    }
}

/// With separate sinks each sink receives the chunks of its own channel,
/// in order. With a combined sink nothing goes to the second sink, and the
/// first receives every chunk, in order of arrival.
pub proof fn lemma_sinks_receive_their_channels(events: Seq<StreamEventView>)
    ensures
        written_to(forwarded(events, OutputMode::Separate), Sink::Output) == chunks_on(
            events,
            Channel::Primary,
        ),
        written_to(forwarded(events, OutputMode::Separate), Sink::Errors) == chunks_on(
            events,
            Channel::Secondary,
        ),
        written_to(forwarded(events, OutputMode::Combined), Sink::Errors) == Seq::<
            Seq<u8>,
        >::empty(),
        written_to(forwarded(events, OutputMode::Combined), Sink::Output) == arrived(events),
    decreases events.len(),
{
    if events.len() > 0 {
        lemma_sinks_receive_their_channels(events.drop_last());
        match events.last() {
            StreamEventView::Chunk(channel, bytes) => {
                let separate = SinkWriteView {
                    sink: route(OutputMode::Separate, channel),
                    origin: channel,
                    bytes,
                };
                let combined = SinkWriteView {
                    sink: route(OutputMode::Combined, channel),
                    origin: channel,
                    bytes,
                };
                assert(forwarded(events.drop_last(), OutputMode::Separate).push(
                    separate,
                ).drop_last() =~= forwarded(events.drop_last(), OutputMode::Separate));
                assert(forwarded(events.drop_last(), OutputMode::Combined).push(
                    combined,
                ).drop_last() =~= forwarded(events.drop_last(), OutputMode::Combined));
            },
            _ => {},
        }
    }
}

/// However the chunks of the two channels are interleaved, an orderly
/// session forwards exactly the chunks that were delivered, those of each
/// channel in the order of their arrival, and then reads the status.
pub proof fn lemma_orderly_session_is_drained(
    events: Seq<StreamEventView>,
    primary: Seq<Seq<u8>>,
    secondary: Seq<Seq<u8>>,
    status: Option<ProcessStatus>,
    mode: OutputMode,
)
    requires
        orderly(events),
        chunks_on(events, Channel::Primary) == primary,
        chunks_on(events, Channel::Secondary) == secondary,
    ensures
        drain_outcome(events, status, mode).result == Ok::<Option<ProcessStatus>, MuxError>(status),
        drain_outcome(events, status, mode).writes == forwarded(events, mode),
        drain_outcome(events, status, mode).writes.len() == primary.len() + secondary.len(),
        written_from(drain_outcome(events, status, mode).writes, Channel::Primary) == primary,
        written_from(drain_outcome(events, status, mode).writes, Channel::Secondary) == secondary,
{
    assert(events.take(events.len() as int) =~= events);
    lemma_forwarded_keeps_each_channel(events, mode);
}

/// The status is read at most once, and never while a channel is open:
/// taking it succeeds only when both channels have ended, a second attempt
/// fails, and no event is taken in afterwards.
pub proof fn lemma_status_is_read_once(mux: MultiplexerView, event: StreamEventView)
    ensures
        mux.status_step().is_ok() ==> mux.is_drained(),
        mux.status_step() matches Ok(next) ==> next.status_step() == Err::<
            MultiplexerView,
            MuxError,
        >(MuxError::StatusTaken) && next.step(event).is_err(),
        !mux.is_drained() ==> mux.status_step() == Err::<MultiplexerView, MuxError>(
            MuxError::ChannelsOpen,
        ),
{
}

} // verus!
