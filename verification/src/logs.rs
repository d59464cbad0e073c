//! Following the log of a workload.
//!
//! The log arrives as chunks of bytes, cut anywhere. Each finished line is
//! handed on as text as soon as its line feed has arrived. When the stream
//! is closed, a last line without a line feed is handed on too. A line that
//! is not text ends the following.

use crate::framing::{
    finished_lines, is_one_line, joined, lemma_joined_in_two, lemma_joined_next, lemma_lines_across_a_cut,
    lemma_next_unreadable, lemma_no_line_feed_no_line, lemma_one_more_byte, lemma_readable_across,
    lemma_readable_is, lemma_texts_across, lemma_unfinished_has_no_line_feed,
    lemma_unreadable_line_stops, readable, texts, trimmed, unfinished, CARRIAGE_RETURN, LINE_FEED,
};
use vstd::prelude::*;
use vstd::utf8::{decode_utf8, valid_utf8};

verus! {

/// What to ask of the control plane when opening a log.
#[derive(Clone, Debug, PartialEq, Eq)]
pub struct LogOptions {
    /// Keep the stream open and deliver lines as they are appended.
    pub follow: bool,
    /// The container to read from; `None` where the workload has only one.
    pub container: Option<String>,
    /// Start this many lines before the end of the log.
    pub tail_lines: Option<u32>,
    /// Start this many seconds before now.
    pub since_seconds: Option<u32>,
    /// Have the server put a timestamp before every line.
    pub timestamps: bool,
}

impl LogOptions {
    /// The whole log of the only container, kept open for what is appended.
    pub fn following() -> (options: Self)
        ensures
            options.follow,
            options.container.is_none(),
            options.tail_lines.is_none(),
            options.since_seconds.is_none(),
            !options.timestamps,
    {
        LogOptions {
            follow: true,
            container: None,
            tail_lines: None,
            since_seconds: None,
            timestamps: false,
        }
    }

    /// The log of the only container as it stands now.
    pub fn buffered() -> (options: Self)
        ensures
            !options.follow,
            options.container.is_none(),
            options.tail_lines.is_none(),
            options.since_seconds.is_none(),
            !options.timestamps,
    {
        LogOptions {
            follow: false,
            container: None,
            tail_lines: None,
            since_seconds: None,
            timestamps: false,
        }
    }
}

/// Why the following of a log ended early.
#[derive(Clone, Debug, PartialEq, Eq)]
pub enum LogFailure {
    /// A line of the log is not UTF-8.
    InvalidText,
    /// The stream failed, with the client's message.
    Transport(String),
}

/// Mathematical model of a [`LogFailure`].
pub enum LogFailureView {
    InvalidText,
    Transport(Seq<char>),
}

impl View for LogFailure {
    type V = LogFailureView;

    open spec fn view(&self) -> LogFailureView {
        match self {
            LogFailure::InvalidText => LogFailureView::InvalidText,
            LogFailure::Transport(message) => LogFailureView::Transport(message@),
        }
    }
}

/// What one step of following hands on.
#[derive(Debug, PartialEq, Eq)]
pub struct Fed {
    /// The lines that the step finished, in order.
    pub lines: Vec<String>,
    /// Set where the following has ended on a line that is not text.
    pub failure: Option<LogFailure>,
}

/// Mathematical model of a [`Fed`].
pub struct FedView {
    pub lines: Seq<Seq<char>>,
    pub failure: Option<LogFailureView>,
}

impl View for Fed {
    type V = FedView;

    open spec fn view(&self) -> FedView {
        FedView {
            lines: self.lines.deep_view(),
            failure: match self.failure {
                Some(failure) => Some(failure@),
                None => None,
            },
        }
    }
}

/// The state of following: the bytes of the unfinished line, and whether
/// the following has ended.
#[derive(Debug, PartialEq, Eq)]
pub struct LogFollower {
    pending: Vec<u8>,
    finished: bool,
}

/// Mathematical model of a [`LogFollower`].
pub struct LogFollowerView {
    pub pending: Seq<u8>,
    pub finished: bool,
}

impl LogFollowerView {
    /// A follower that has read nothing.
    pub open spec fn start() -> LogFollowerView {
        LogFollowerView { pending: Seq::empty(), finished: false }
    }

    /// A follower that reads no more.
    pub open spec fn stopped() -> LogFollowerView {
        LogFollowerView { pending: Seq::empty(), finished: true }
    }

    /// The follower after `chunk`, and what it hands on.
    ///
    /// The lines that the chunk finishes are handed on up to the first that
    /// is not text, which ends the following. A follower that has ended
    /// reads nothing.
    pub open spec fn feed(self, chunk: Seq<u8>) -> (LogFollowerView, FedView) {
        let lines = finished_lines(self.pending + chunk);
        let count = readable(lines);
        if self.finished {
            (self, FedView { lines: Seq::empty(), failure: None })
        } else if count < lines.len() {
            (
                LogFollowerView::stopped(),
                FedView {
                    lines: texts(lines.take(count)),
                    failure: Some(LogFailureView::InvalidText),
                },
            )
        } else {
            (
                LogFollowerView { pending: unfinished(self.pending + chunk), finished: false },
                FedView { lines: texts(lines), failure: None },
            )
        }
    }

    /// What the follower hands on when the stream is closed: the unfinished
    /// line as it is, if there is one.
    pub open spec fn close(self) -> FedView {
        if self.finished || self.pending.len() == 0 {
            FedView { lines: Seq::empty(), failure: None }
        } else if valid_utf8(self.pending) {
            FedView { lines: seq![decode_utf8(self.pending)], failure: None }
        } else {
            FedView { lines: Seq::empty(), failure: Some(LogFailureView::InvalidText) }
        }
    }
}

impl View for LogFollower {
    type V = LogFollowerView;

    closed spec fn view(&self) -> LogFollowerView {
        LogFollowerView { pending: self.pending@, finished: self.finished }
    }
}

/// Calls [`String::from_utf8`]. Taken on trust from its documentation, not
/// proved here: it gives the text exactly when the bytes are well-formed
/// UTF-8, and the text is what those bytes decode to.
#[verifier::external_body]
fn decode_text(bytes: Vec<u8>) -> (text: Option<String>)
    ensures
        text.is_some() == valid_utf8(bytes@),
        text matches Some(decoded) ==> decoded@ == decode_utf8(bytes@),
{
    String::from_utf8(bytes).ok()
}

/// The text of a line as it stood before its line feed.
fn decode_line(line: Vec<u8>) -> (text: Option<String>)
    ensures
        text.is_some() == valid_utf8(trimmed(line@)),
        text matches Some(decoded) ==> decoded@ == decode_utf8(trimmed(line@)),
{
    let ghost whole = line@;
    let mut line = line;
    let length = line.len();
    if length > 0 && line[length - 1] == CARRIAGE_RETURN {
        line.pop();
    }
    assert(line@ =~= trimmed(whole));
    decode_text(line)
}

impl LogFollower {
    #[verifier::type_invariant]
    spec fn holds_one_line(self) -> bool {
        forall|i: int| 0 <= i < self.pending@.len() ==> self.pending@[i] != LINE_FEED
    }

    /// A follower that has read nothing.
    pub fn new() -> (follower: Self)
        ensures
            follower@ == LogFollowerView::start(),
    {
        LogFollower { pending: Vec::new(), finished: false }
    }

    /// Whether the following has ended.
    pub fn is_finished(&self) -> (finished: bool)
        ensures
            finished == self@.finished,
    {
        self.finished
    }

    /// Reads one chunk and hands on the lines that it finishes.
    pub fn feed(&mut self, chunk: &[u8]) -> (fed: Fed)
        ensures
            (final(self)@, fed@) == old(self)@.feed(chunk@),
    {
        let mut lines: Vec<String> = Vec::new();
        if self.finished {
            assert(lines.deep_view() =~= Seq::<Seq<char>>::empty());
            return Fed { lines, failure: None };
        }
        let ghost start = self.pending@;
        let ghost whole = start + chunk@;
        proof {
            use_type_invariant(&*self);
        }
        let mut pending: Vec<u8> = Vec::new();
        std::mem::swap(&mut self.pending, &mut pending);
        proof {
            lemma_no_line_feed_no_line(start);
            assert(start + chunk@.take(0) =~= start);
            lemma_readable_is(finished_lines(start), 0);
            assert(lines.deep_view() =~= texts(finished_lines(start)));
        }
        let mut i: usize = 0;
        while i < chunk.len()
            invariant
                i <= chunk.len(),
                whole == start + chunk@,
                old(self)@ == (LogFollowerView { pending: start, finished: false }),
                !self.finished,
                self.pending@ == Seq::<u8>::empty(),
                pending@ == unfinished(start + chunk@.take(i as int)),
                readable(finished_lines(start + chunk@.take(i as int))) == finished_lines(
                    start + chunk@.take(i as int),
                ).len(),
                lines.deep_view() == texts(finished_lines(start + chunk@.take(i as int))),
            decreases chunk.len() - i,
        {
            let byte = chunk[i];
            let ghost read = start + chunk@.take(i as int);
            let ghost before = finished_lines(read);
            proof {
                assert(start + chunk@.take(i + 1) =~= read.push(byte));
                lemma_one_more_byte(read, byte);
                lemma_unfinished_has_no_line_feed(read);
                lemma_next_unreadable(before, 0);
            }
            if byte == LINE_FEED {
                let mut line: Vec<u8> = Vec::new();
                std::mem::swap(&mut pending, &mut line);
                let ghost raw = trimmed(line@);
                match decode_line(line) {
                    Some(text) => {
                        let ghost told = lines.deep_view();
                        lines.push(text);
                        proof {
                            assert(lines.deep_view() =~= told.push(text@));
                            assert(texts(before.push(raw)) =~= texts(before).push(
                                decode_utf8(raw),
                            ));
                            lemma_readable_is(before.push(raw), before.len() as int + 1);
                        }
                    },
                    None => {
                        self.finished = true;
                        proof {
                            let rest = chunk@.skip(i + 1);
                            assert(whole =~= read.push(byte) + rest);
                            lemma_lines_across_a_cut(read.push(byte), rest);
                            let all = finished_lines(whole);
                            assert(finished_lines(read.push(byte)) == before.push(raw));
                            assert(all.take(before.len() as int) =~= before);
                            assert(all[before.len() as int] == raw);
                            assert forall|j: int| 0 <= j < before.len() implies valid_utf8(
                                #[trigger] all[j],
                            ) by {
                                assert(all[j] == before[j]);
                            }
                            lemma_readable_is(all, before.len() as int);
                        }
                        return Fed { lines, failure: Some(LogFailure::InvalidText) };
                    },
                }
            } else {
                pending.push(byte);
            }
            i += 1;
        }
        proof {
            assert(chunk@.take(i as int) =~= chunk@);
            lemma_unfinished_has_no_line_feed(whole);
        }
        self.pending = pending;
        Fed { lines, failure: None }
    }

    /// Ends the following because the stream was closed, and hands on the
    /// unfinished line, if there is one.
    pub fn close(&mut self) -> (fed: Fed)
        ensures
            final(self)@ == LogFollowerView::stopped(),
            fed@ == old(self)@.close(),
    {
        let mut lines: Vec<String> = Vec::new();
        let mut last: Vec<u8> = Vec::new();
        std::mem::swap(&mut self.pending, &mut last);
        let was_finished = self.finished;
        self.finished = true;
        assert(lines.deep_view() =~= Seq::<Seq<char>>::empty());
        if was_finished || last.len() == 0 {
            return Fed { lines, failure: None };
        }
        match decode_text(last) {
            Some(text) => {
                lines.push(text);
                assert(lines.deep_view() =~= seq![text@]);
                Fed { lines, failure: None }
            },
            None => Fed { lines, failure: Some(LogFailure::InvalidText) },
        }
    }

    /// Ends the following at once, because the caller gave the stream up.
    /// The unfinished line is dropped.
    pub fn cancel(&mut self)
        ensures
            final(self)@ == LogFollowerView::stopped(),
    {
        self.pending = Vec::new();
        self.finished = true;
    }

    /// Ends the following because the stream failed. The unfinished line is
    /// dropped.
    pub fn fail(&mut self, message: String) -> (failure: LogFailure)
        ensures
            final(self)@ == LogFollowerView::stopped(),
            failure@ == LogFailureView::Transport(message@),
    {
        self.pending = Vec::new();
        self.finished = true;
        LogFailure::Transport(message)
    }
}

/// How the stream of a log came to its end.
#[derive(Clone, Debug, PartialEq, Eq)]
pub enum LogEnding {
    /// The server closed the stream.
    Closed,
    /// The caller gave the stream up.
    Cancelled,
    /// The stream failed, with the client's message.
    Broken(String),
}

/// What came of following a whole log.
#[derive(Debug, PartialEq, Eq)]
pub struct LogReport {
    /// The lines that were handed on, in order.
    pub lines: Vec<String>,
    pub result: Result<(), LogFailure>,
}

/// Mathematical model of a [`LogReport`].
pub struct LogReportView {
    pub lines: Seq<Seq<char>>,
    pub result: Result<(), LogFailureView>,
}

impl View for LogReport {
    type V = LogReportView;

    open spec fn view(&self) -> LogReportView {
        LogReportView {
            lines: self.lines.deep_view(),
            result: match self.result {
                Ok(()) => Ok(()),
                Err(failure) => Err(failure@),
            },
        }
    }
}

/// What comes of following a stream that delivers `bytes` and then ends as
/// `ending` says.
///
/// The finished lines are handed on up to the first that is not text,
/// which is the failure. Where all are text, a closed stream hands on its
/// unfinished line too, a cancelled or broken one drops it, and a broken
/// one is the failure.
pub open spec fn log_outcome(bytes: Seq<u8>, ending: LogEnding) -> LogReportView {
    let lines = finished_lines(bytes);
    let count = readable(lines);
    let rest = unfinished(bytes);
    if count < lines.len() {
        LogReportView { lines: texts(lines.take(count)), result: Err(LogFailureView::InvalidText) }
    } else {
        match ending {
            LogEnding::Closed => if rest.len() == 0 {
                LogReportView { lines: texts(lines), result: Ok(()) }
            } else if valid_utf8(rest) {
                LogReportView { lines: texts(lines).push(decode_utf8(rest)), result: Ok(()) }
            } else {
                LogReportView { lines: texts(lines), result: Err(LogFailureView::InvalidText) }
            },
            LogEnding::Cancelled => LogReportView { lines: texts(lines), result: Ok(()) },
            LogEnding::Broken(message) => LogReportView {
                lines: texts(lines),
                result: Err(LogFailureView::Transport(message@)),
            },
        }
    }
}

/// Follows a stream that delivered `chunks` and then ended as `ending`
/// says.
pub fn follow_logs(chunks: &Vec<Vec<u8>>, ending: LogEnding) -> (report: LogReport)
    ensures
        report@ == log_outcome(joined(chunks.deep_view()), ending),
{
    let ghost all = chunks.deep_view();
    let mut follower = LogFollower::new();
    let mut lines: Vec<String> = Vec::new();
    let mut k: usize = 0;
    proof {
        assert(all.take(0) =~= Seq::<Seq<u8>>::empty());
        lemma_readable_is(finished_lines(joined(all.take(0))), 0);
        assert(lines.deep_view() =~= texts(finished_lines(joined(all.take(0)))));
    }
    while k < chunks.len()
        invariant
            k <= chunks.len(),
            all == chunks.deep_view(),
            follower@ == (LogFollowerView {
                pending: unfinished(joined(all.take(k as int))),
                finished: false,
            }),
            readable(finished_lines(joined(all.take(k as int)))) == finished_lines(
                joined(all.take(k as int)),
            ).len(),
            lines.deep_view() == texts(finished_lines(joined(all.take(k as int)))),
        decreases chunks.len() - k,
    {
        let ghost read = joined(all.take(k as int));
        let ghost chunk = all[k as int];
        let ghost told = lines.deep_view();
        let ghost fresh = finished_lines(unfinished(read) + chunk);
        let mut fed = follower.feed(chunks[k].as_slice());
        let ghost handed = fed.lines.deep_view();
        lines.append(&mut fed.lines);
        proof {
            assert(chunks[k as int]@ =~= chunk);
            assert(lines.deep_view() =~= told + handed);
            lemma_joined_next(all, k as int);
            lemma_lines_across_a_cut(read, chunk);
            lemma_readable_across(finished_lines(read), fresh);
            lemma_texts_across(finished_lines(read), fresh);
            lemma_next_unreadable(fresh, 0);
        }
        match fed.failure {
            Some(failure) => {
                proof {
                    let rest = joined(all.skip(k + 1));
                    lemma_joined_in_two(all, k + 1);
                    lemma_unreadable_line_stops(read + chunk, rest);
                    lemma_texts_across(finished_lines(read), fresh.take(readable(fresh)));
                    assert(finished_lines(read + chunk).take(
                        readable(finished_lines(read + chunk)),
                    ) =~= finished_lines(read) + fresh.take(readable(fresh)));
                }
                return LogReport { lines, result: Err(failure) };
            },
            None => {},
        }
        k += 1;
    }
    proof {
        assert(all.take(k as int) =~= all);
    }
    match ending {
        LogEnding::Closed => {
            let ghost told = lines.deep_view();
            let mut fed = follower.close();
            let ghost handed = fed.lines.deep_view();
            lines.append(&mut fed.lines);
            proof {
                assert(lines.deep_view() =~= told + handed);
                assert(told + Seq::<Seq<char>>::empty() =~= told);
                if handed.len() == 1 {
                    assert(told + handed =~= told.push(handed[0]));
                }
            }
            match fed.failure {
                Some(failure) => LogReport { lines, result: Err(failure) },
                None => LogReport { lines, result: Ok(()) },
            }
        },
        LogEnding::Cancelled => {
            follower.cancel();
            LogReport { lines, result: Ok(()) }
        },
        LogEnding::Broken(message) => LogReport { lines, result: Err(follower.fail(message)) },
    }
}

/// How the stream is cut into chunks does not matter: reading two chunks
/// one after the other hands on what reading them as one chunk does, and
/// leaves the follower in the same state.
pub proof fn lemma_feed_in_two(follower: LogFollowerView, first: Seq<u8>, second: Seq<u8>)
    ensures
        follower.feed(first).0.feed(second).0 == follower.feed(first + second).0,
        follower.feed(first).1.lines + follower.feed(first).0.feed(second).1.lines
            == follower.feed(first + second).1.lines,
        follower.feed(first + second).1.failure == if follower.feed(first).1.failure.is_some() {
            follower.feed(first).1.failure
        } else {
            follower.feed(first).0.feed(second).1.failure
        },
{
    let read = follower.pending + first;
    let left = finished_lines(read);
    let right = finished_lines(unfinished(read) + second);
    assert(follower.pending + (first + second) =~= read + second);
    lemma_lines_across_a_cut(read, second);
    lemma_readable_across(left, right);
    lemma_next_unreadable(left, 0);
    lemma_next_unreadable(right, 0);
    let one = follower.feed(first);
    let two = one.0.feed(second);
    let both = follower.feed(first + second);
    if follower.finished {
        assert(one.1.lines + two.1.lines =~= both.1.lines);
    } else if readable(left) < left.len() {
        assert((left + right).take(readable(left)) =~= left.take(readable(left)));
        assert(one.1.lines + two.1.lines =~= both.1.lines);
    } else {
        lemma_texts_across(left, right.take(readable(right)));
        assert((left + right).take(left.len() + readable(right)) =~= left + right.take(
            readable(right),
        ));
        assert(right.take(right.len() as int) =~= right);
        assert(one.1.lines + two.1.lines =~= both.1.lines);
    }
}

/// The following does not end by itself: a chunk ends it only where it
/// finishes a line that is not text, which is then the failure.
pub proof fn lemma_following_goes_on(follower: LogFollowerView, chunk: Seq<u8>)
    requires
        !follower.finished,
    ensures
        follower.feed(chunk).0.finished == follower.feed(chunk).1.failure.is_some(),
        follower.feed(chunk).0.finished == (readable(finished_lines(follower.pending + chunk))
            < finished_lines(follower.pending + chunk).len()),
        (forall|i: int|
            0 <= i < finished_lines(follower.pending + chunk).len() ==> valid_utf8(
                #[trigger] finished_lines(follower.pending + chunk)[i],
            )) ==> !follower.feed(chunk).0.finished,
{
    lemma_next_unreadable(finished_lines(follower.pending + chunk), 0);
}

/// The bytes of a log that holds `lines`, each ended by a line feed.
pub open spec fn written_out(lines: Seq<Seq<u8>>) -> Seq<u8>
    decreases lines.len(),
{
    if lines.len() == 0 {
        Seq::empty()
    } else {
        written_out(lines.drop_last()) + lines.last().push(LINE_FEED)
    }
}

/// A log that holds so many lines of text, and is then closed, hands on as
/// many lines, each as it was written, and ends without a failure.
pub proof fn lemma_buffered_log_is_told_line_by_line(lines: Seq<Seq<u8>>)
    requires
        forall|i: int| 0 <= i < lines.len() ==> is_one_line(#[trigger] lines[i]),
        forall|i: int| 0 <= i < lines.len() ==> valid_utf8(trimmed(#[trigger] lines[i])),
    ensures
        log_outcome(written_out(lines), LogEnding::Closed).result == Ok::<(), LogFailureView>(()),
        log_outcome(written_out(lines), LogEnding::Closed).lines.len() == lines.len(),
        forall|i: int|
            0 <= i < lines.len() ==> (#[trigger] log_outcome(
                written_out(lines),
                LogEnding::Closed,
            ).lines[i]) == decode_utf8(trimmed(lines[i])),
{
    lemma_written_out(lines);
    let framed = finished_lines(written_out(lines));
    assert forall|i: int| 0 <= i < framed.len() implies valid_utf8(#[trigger] framed[i]) by {
        assert(framed[i] == trimmed(lines[i]));
    }
    lemma_readable_is(framed, framed.len() as int);
}

proof fn lemma_written_out(lines: Seq<Seq<u8>>)
    requires
        forall|i: int| 0 <= i < lines.len() ==> is_one_line(#[trigger] lines[i]),
    ensures
        finished_lines(written_out(lines)) == Seq::new(lines.len(), |i: int| trimmed(lines[i])),
        unfinished(written_out(lines)) == Seq::<u8>::empty(),
    decreases lines.len(),
{
    if lines.len() > 0 {
        let init = lines.drop_last();
        let last = lines.last();
        assert forall|i: int| 0 <= i < init.len() implies is_one_line(#[trigger] init[i]) by {
            assert(init[i] == lines[i]);
        }
        lemma_written_out(init);
        lemma_lines_across_a_cut(written_out(init), last.push(LINE_FEED));
        assert(Seq::<u8>::empty() + last.push(LINE_FEED) =~= last.push(LINE_FEED));
        lemma_one_more_byte(last, LINE_FEED);
        assert(is_one_line(lines[lines.len() - 1]));
        lemma_no_line_feed_no_line(last);
        assert(finished_lines(written_out(lines)) =~= Seq::new(
            lines.len(),
            |i: int| trimmed(lines[i]),
        ));
    } else {
        assert(finished_lines(written_out(lines)) =~= Seq::new(
            lines.len(),
            |i: int| trimmed(lines[i]),
        ));
    }
}

} // verus!
