//! Hosting of the web service process: its readiness line, the wait for that
//! line, and the handle of a service that is up.

use crate::text;
use std::sync::mpsc::{Receiver, RecvTimeoutError};
use std::time::Duration;
use vstd::prelude::*;
use vstd::string::*;

verus! {

/// What the readiness line starts with. The service prints it once its server
/// is bound: the prefix, then the URL, then optionally a note on the local
/// network.
pub const READY_PREFIX: &'static str = "dsh web: ";

/// How long to wait for the readiness line before reporting a startup
/// failure, in milliseconds.
pub const READY_TIMEOUT_MS: u64 = 60000;

/// Errors from hosting the service.
#[derive(Debug, PartialEq, Eq)]
pub enum ServiceError {
    /// Starting the service process failed; the text says why.
    Spawn(String),
    /// The service process went away before it printed its readiness line.
    ExitedBeforeReady { code: Option<i32> },
    /// No readiness line arrived in time.
    ReadyTimeout { timeout_ms: u64 },
}

/// A running service: its process id, and the readiness URL once resolved.
#[derive(Debug, PartialEq, Eq)]
pub struct ServiceHandle {
    /// Process id of the service, used to stop it.
    pub pid: u32,
    /// The resolved URL; `None` until the readiness line arrives.
    pub url: Option<String>,
}

/// The URL that a line of the service's output announces, if the line is a
/// readiness line that holds one: the first word behind the prefix.
pub open spec fn announced_url(line: Seq<char>) -> Option<Seq<char>> {
    let word = text::first_word(line.skip(READY_PREFIX@.len() as int));
    if READY_PREFIX@.is_prefix_of(line) && word.len() > 0 {
        Some(word)
    } else {
        None
    }
}

/// The URL that `line` announces.
pub fn ready_url(line: &str) -> (url: Option<String>)
    ensures
        text::opt_text(url) == announced_url(line@),
{
    let prefix = text::chars_of(READY_PREFIX);
    let chars = text::chars_of(line);
    let is_ready = text::stands_at(&chars, &prefix, 0);
    proof {
        if READY_PREFIX@.is_prefix_of(line@) {
            assert(line@.subrange(0, READY_PREFIX@.len() as int) =~= READY_PREFIX@);
        }
        if is_ready {
            assert(READY_PREFIX@ =~= line@.subrange(0, READY_PREFIX@.len() as int));
        }
    }
    if !is_ready {
        return None;
    }
    let word = text::first_word_from(line, prefix.len());
    if word.is_empty() {
        None
    } else {
        Some(word.to_owned())
    }
}

/// What the drain of the service's output is told.
#[derive(Debug, PartialEq, Eq)]
pub enum DrainEvent {
    /// A line was read.
    Line(String),
    /// A line was read that is not UTF-8, so it announces nothing.
    Undecodable,
    /// The output has ended.
    Ended,
    /// Reading failed.
    ReadFailed,
    /// A URL was handed over.
    Sent,
    /// Nobody takes URLs any more.
    ReceiverGone,
}

/// What the drain of the service's output does next.
#[derive(Debug, PartialEq, Eq)]
pub enum DrainAction {
    /// Read the next line. A drain starts with this.
    ReadLine,
    /// Hand over a URL.
    SendUrl(String),
    /// Stop reading.
    Stop,
}

/// A [`DrainAction`] with its text as a sequence of characters.
pub enum DrainStep {
    ReadLine,
    SendUrl(Seq<char>),
    Stop,
}

impl View for DrainAction {
    type V = DrainStep;

    open spec fn view(&self) -> DrainStep {
        match self {
            DrainAction::ReadLine => DrainStep::ReadLine,
            DrainAction::SendUrl(url) => DrainStep::SendUrl(url@),
            DrainAction::Stop => DrainStep::Stop,
        }
    }
}

/// `String::from_utf8` of std: the text that `bytes` encode, and `None` when
/// they are not the UTF-8 encoding of any text.
#[verifier::external_body]
fn decoded(bytes: Vec<u8>) -> (line: Option<String>)
    ensures
        match line {
            Some(text) => vstd::utf8::encode_utf8(text@) == bytes@,
            None => forall|text: Seq<char>| #[trigger] vstd::utf8::encode_utf8(text) != bytes@,
        },
{
    match String::from_utf8(bytes) {
        Ok(text) => Some(text),
        Err(_) => None,
    }
}

/// What reading up to the end of a line has brought: `bytes` are the line, and
/// there are none once the output has ended.
pub fn line_event(bytes: Vec<u8>) -> (event: DrainEvent)
    ensures
        match event {
            DrainEvent::Line(line) => bytes@.len() > 0 && vstd::utf8::encode_utf8(line@) == bytes@,
            DrainEvent::Undecodable => bytes@.len() > 0 && forall|text: Seq<char>| #[trigger]
                vstd::utf8::encode_utf8(text) != bytes@,
            DrainEvent::Ended => bytes@.len() == 0,
            _ => false,
        },
{
    if bytes.len() == 0 {
        return DrainEvent::Ended;
    }
    match decoded(bytes) {
        Some(line) => DrainEvent::Line(line),
        None => DrainEvent::Undecodable,
    }
}

/// What follows on `event`: a line that announces a URL has the URL handed
/// over, any other line and a URL handed over have the next line read, and the
/// rest ends the drain.
pub open spec fn drain_step(event: DrainEvent) -> DrainStep {
    match event {
        DrainEvent::Line(line) => match announced_url(line@) {
            Some(url) => DrainStep::SendUrl(url),
            None => DrainStep::ReadLine,
        },
        DrainEvent::Undecodable | DrainEvent::Sent => DrainStep::ReadLine,
        DrainEvent::Ended | DrainEvent::ReadFailed | DrainEvent::ReceiverGone => DrainStep::Stop,
    }
}

/// One step of draining the service's output: hands over what the readiness
/// lines announce, and goes on reading after them, so that the service never
/// blocks on a full pipe.
pub fn drain_stdout(event: DrainEvent) -> (action: DrainAction)
    ensures
        action@ == drain_step(event),
        action is Stop <==> (event is Ended || event is ReadFailed || event is ReceiverGone),
{
    match event {
        DrainEvent::Line(line) => match ready_url(line.as_str()) {
            Some(url) => DrainAction::SendUrl(url),
            None => DrainAction::ReadLine,
        },
        DrainEvent::Undecodable => DrainAction::ReadLine,
        DrainEvent::Sent => DrainAction::ReadLine,
        DrainEvent::Ended => DrainAction::Stop,
        DrainEvent::ReadFailed => DrainAction::Stop,
        DrainEvent::ReceiverGone => DrainAction::Stop,
    }
}

/// The receiving end of a channel of std. Nothing is known of a value of it.
#[verifier::external_type_specification]
#[verifier::external_body]
#[verifier::reject_recursive_types(T)]
pub struct ExReceiver<T>(std::sync::mpsc::Receiver<T>);

/// What came of waiting for a URL.
#[derive(Debug, PartialEq, Eq)]
pub enum ReadyReply {
    /// A URL came.
    Url(String),
    /// The wait ran out, after so many milliseconds.
    TimedOut { after_ms: u64 },
    /// The drain of the service's output is over, and no URL can come.
    Disconnected,
}

/// Whether `reply` can come of a wait of `timeout_ms` milliseconds: one that
/// ran out took that long.
pub open spec fn comes_of(reply: ReadyReply, timeout_ms: u64) -> bool {
    reply matches ReadyReply::TimedOut { after_ms } ==> after_ms == timeout_ms
}

/// `Receiver::recv_timeout` of std: waits for the next URL, for `timeout_ms`
/// milliseconds at most, and reports a timeout once they have passed. Which
/// reply comes depends on the sender and on time, so nothing is said of it.
#[verifier::external_body]
fn receive_url(ready_rx: &Receiver<String>, timeout_ms: u64) -> (reply: ReadyReply)
    ensures
        reply matches ReadyReply::TimedOut { after_ms } ==> after_ms == timeout_ms,
{
    match ready_rx.recv_timeout(Duration::from_millis(timeout_ms)) {
        Ok(url) => ReadyReply::Url(url),
        Err(RecvTimeoutError::Timeout) => ReadyReply::TimedOut { after_ms: timeout_ms },
        Err(RecvTimeoutError::Disconnected) => ReadyReply::Disconnected,
    }
}

/// Whether `reply` is what a receive on `ready_rx` brought that was given the
/// whole of `timeout_ms` milliseconds.
pub closed spec fn received(
    ready_rx: &Receiver<String>,
    timeout_ms: u64,
    reply: ReadyReply,
) -> bool {
    call_ensures(receive_url, (ready_rx, timeout_ms), reply)
}

/// What a wait that brought `reply` comes to.
pub open spec fn wait_result(reply: ReadyReply) -> Result<String, ServiceError> {
    match reply {
        ReadyReply::Url(url) => Ok(url),
        ReadyReply::TimedOut { after_ms } => Err(
            ServiceError::ReadyTimeout { timeout_ms: after_ms },
        ),
        ReadyReply::Disconnected => Err(ServiceError::ExitedBeforeReady { code: None }),
    }
}

/// What a wait that brought `reply` comes to. A drain that is over means that
/// the service died before serving; its exit code is reported elsewhere.
pub fn ready_result(reply: ReadyReply) -> (result: Result<String, ServiceError>)
    ensures
        result == wait_result(reply),
{
    match reply {
        ReadyReply::Url(url) => Ok(url),
        ReadyReply::TimedOut { after_ms } => Err(
            ServiceError::ReadyTimeout { timeout_ms: after_ms },
        ),
        ReadyReply::Disconnected => Err(ServiceError::ExitedBeforeReady { code: None }),
    }
}

/// Waits for the URL that the service announces, for `timeout_ms` milliseconds
/// at most, and reports a failure instead of hanging. With no time to wait, no
/// URL is taken.
pub fn wait_for_ready(ready_rx: &Receiver<String>, timeout_ms: u64) -> (result: Result<
    String,
    ServiceError,
>)
    ensures
        timeout_ms == 0 ==> result == Err::<String, ServiceError>(
            ServiceError::ReadyTimeout { timeout_ms: 0 },
        ),
        exists|reply: ReadyReply|
            comes_of(reply, timeout_ms) && result == #[trigger] wait_result(reply),
        timeout_ms > 0 ==> exists|reply: ReadyReply|
            received(ready_rx, timeout_ms, reply) && result == #[trigger] wait_result(reply),
{
    let reply = if timeout_ms == 0 {
        ReadyReply::TimedOut { after_ms: 0 }
    } else {
        receive_url(ready_rx, timeout_ms)
    };
    assert(timeout_ms > 0 ==> received(ready_rx, timeout_ms, reply));
    assert(comes_of(reply, timeout_ms));
    ready_result(reply)
}

/// What starting the process `pid` and waiting for its readiness comes to.
pub open spec fn start_result(pid: u32, ready: Result<String, ServiceError>) -> Result<
    ServiceHandle,
    ServiceError,
> {
    match ready {
        Ok(url) => Ok(ServiceHandle { pid, url: Some(url) }),
        Err(error) => Err(error),
    }
}

/// The handle of the service process `pid` once its readiness is known.
pub fn started_service(pid: u32, ready: Result<String, ServiceError>) -> (result: Result<
    ServiceHandle,
    ServiceError,
>)
    ensures
        result == start_result(pid, ready),
{
    match ready {
        Ok(url) => Ok(ServiceHandle { pid, url: Some(url) }),
        Err(error) => Err(error),
    }
}

/// Completes the start of the service: `spawned` is the id of its process, or
/// why there is none, and `ready_rx` brings the URLs from the drain of its
/// output.
pub fn spawn_service(spawned: Result<u32, String>, ready_rx: &Receiver<String>) -> (result: Result<
    ServiceHandle,
    ServiceError,
>)
    ensures
        match spawned {
            Err(reason) => result == Err::<ServiceHandle, ServiceError>(
                ServiceError::Spawn(reason),
            ),
            Ok(pid) => exists|reply: ReadyReply|
                comes_of(reply, READY_TIMEOUT_MS) && result == start_result(
                    pid,
                    #[trigger] wait_result(reply),
                ),
        },
        spawned matches Ok(pid) ==> exists|reply: ReadyReply|
            received(ready_rx, 60000, reply) && result == start_result(
                pid,
                #[trigger] wait_result(reply),
            ),
{
    match spawned {
        Err(reason) => Err(ServiceError::Spawn(reason)),
        Ok(pid) => {
            let ready = wait_for_ready(ready_rx, READY_TIMEOUT_MS);
            started_service(pid, ready)
        },
    }
}

/// What the service prints is what is read back: a readiness line announces
/// its URL, whatever note follows it.
pub proof fn readiness_line_announces_its_url(url: Seq<char>, note: Seq<char>)
    requires
        url.len() > 0,
        text::has_no_white_space(url),
        note.len() == 0 || text::is_white_space(note[0]),
    ensures
        announced_url(READY_PREFIX@ + url + note) == Some(url),
{
    let line = READY_PREFIX@ + url + note;
    let rest = line.skip(READY_PREFIX@.len() as int);
    assert(rest =~= url + note);
    text::lemma_leading_word(url, note);
    assert(!text::is_white_space(url[0]));
    assert(text::skip_white_space(rest) == rest);
}

/// The words of a readiness line may stand any white space apart: the line
/// announces the first word behind its prefix, and nothing when there is none.
pub proof fn a_readiness_line_announces_its_first_word(
    gap: Seq<char>,
    url: Seq<char>,
    note: Seq<char>,
)
    requires
        forall|i: int| 0 <= i < gap.len() ==> text::is_white_space(#[trigger] gap[i]),
        text::has_no_white_space(url),
        note.len() == 0 || url.len() > 0 && text::is_white_space(note[0]),
    ensures
        announced_url("dsh web: "@ + gap + url + note) == (if url.len() > 0 {
            Some(url)
        } else {
            None
        }),
{
    let line = "dsh web: "@ + gap + url + note;
    assert(READY_PREFIX@.is_prefix_of(line)) by {
        assert(line.subrange(0, READY_PREFIX@.len() as int) =~= READY_PREFIX@);
    }
    assert(line.skip(READY_PREFIX@.len() as int) =~= gap + url + note);
    text::the_first_word_stands_between_spaces(gap, url, note);
}

/// A line that does not start with the prefix, character for character,
/// announces nothing.
pub proof fn any_other_line_announces_nothing(line: Seq<char>)
    requires
        line.len() < 9 || line.take(9) != "dsh web: "@,
    ensures
        announced_url(line) is None,
{
    reveal_strlit("dsh web: ");
    if READY_PREFIX@.is_prefix_of(line) {
        assert(line.take(9) =~= line.subrange(0, READY_PREFIX@.len() as int));
    }
}

/// What a drain does at each event: it hands over what a readiness line
/// announces, reads on after any other line and after a URL that was taken,
/// and stops for nothing but the end of the output, a failure to read it, and
/// a receiver that is gone.
pub proof fn a_drain_hands_over_what_a_line_announces(
    line: String,
    gap: Seq<char>,
    url: Seq<char>,
    note: Seq<char>,
)
    requires
        forall|i: int| 0 <= i < gap.len() ==> text::is_white_space(#[trigger] gap[i]),
        text::has_no_white_space(url),
        note.len() == 0 || url.len() > 0 && text::is_white_space(note[0]),
    ensures
        line@ == "dsh web: "@ + gap + url + note && url.len() > 0 ==> drain_step(
            DrainEvent::Line(line),
        ) == DrainStep::SendUrl(url),
        line@ == "dsh web: "@ + gap + url + note && url.len() == 0 ==> drain_step(
            DrainEvent::Line(line),
        ) is ReadLine,
        line@.len() < 9 || line@.take(9) != "dsh web: "@ ==> drain_step(
            DrainEvent::Line(line),
        ) is ReadLine,
        drain_step(DrainEvent::Undecodable) is ReadLine,
        drain_step(DrainEvent::Sent) is ReadLine,
        drain_step(DrainEvent::Ended) is Stop,
        drain_step(DrainEvent::ReadFailed) is Stop,
        drain_step(DrainEvent::ReceiverGone) is Stop,
{
    a_readiness_line_announces_its_first_word(gap, url, note);
    if line@.len() < 9 || line@.take(9) != "dsh web: "@ {
        any_other_line_announces_nothing(line@);
    }
}

/// A wait that ran out was given all of its time.
pub proof fn a_wait_that_ran_out_took_its_time(
    ready_rx: &Receiver<String>,
    timeout_ms: u64,
    reply: ReadyReply,
)
    requires
        received(ready_rx, timeout_ms, reply),
    ensures
        reply matches ReadyReply::TimedOut { after_ms } ==> after_ms == timeout_ms,
        wait_result(reply) matches Err(ServiceError::ReadyTimeout { timeout_ms: reported })
            ==> reported == timeout_ms,
{
}

/// The reply decides what starting a service comes to, and nothing of it is
/// lost: a URL makes a handle of the process with that URL, a wait that ran out
/// is reported with its time, and a drain that is over is an exit before
/// readiness. Two replies never come to the same.
pub proof fn the_reply_decides_the_start(pid: u32, reply: ReadyReply, other: ReadyReply)
    ensures
        match reply {
            ReadyReply::Url(url) => wait_result(reply) == Ok::<String, ServiceError>(url)
                && start_result(pid, wait_result(reply)) == Ok::<ServiceHandle, ServiceError>(
                (ServiceHandle { pid, url: Some(url) }),
            ),
            ReadyReply::TimedOut { after_ms } => {
                &&& wait_result(reply) == Err::<String, ServiceError>(
                    (ServiceError::ReadyTimeout { timeout_ms: after_ms }),
                )
                &&& start_result(pid, wait_result(reply)) == Err::<ServiceHandle, ServiceError>(
                    (ServiceError::ReadyTimeout { timeout_ms: after_ms }),
                )
            },
            ReadyReply::Disconnected => {
                &&& wait_result(reply) == Err::<String, ServiceError>(
                    (ServiceError::ExitedBeforeReady { code: None }),
                )
                &&& start_result(pid, wait_result(reply)) == Err::<ServiceHandle, ServiceError>(
                    (ServiceError::ExitedBeforeReady { code: None }),
                )
            },
        },
        wait_result(reply) == wait_result(other) ==> reply == other,
{
}

/// A start that failed hands its failure on; one that did not has the process
/// that was spawned and the URL that it announced.
pub proof fn a_start_keeps_what_it_was_given(pid: u32, ready: Result<String, ServiceError>)
    ensures
        match start_result(pid, ready) {
            Ok(handle) => handle.pid == pid && (handle.url matches Some(url) && ready == Ok::<
                String,
                ServiceError,
            >(url)),
            Err(error) => ready == Err::<String, ServiceError>(error),
        },
{
}

/// An announced URL is a word: it is not empty and holds no white space.
pub proof fn announced_url_is_a_word(line: Seq<char>)
    ensures
        announced_url(line) matches Some(url) ==> url.len() > 0 && text::has_no_white_space(url),
        announced_url(line) is Some ==> READY_PREFIX@.is_prefix_of(line),
{
    text::lemma_leading_word_shape(
        text::skip_white_space(line.skip(READY_PREFIX@.len() as int)),
    );
}

/// What is due after `events`: a drain starts with reading.
pub open spec fn drain_due(events: Seq<DrainEvent>) -> DrainStep {
    if events.len() == 0 {
        DrainStep::ReadLine
    } else {
        drain_step(events.last())
    }
}

/// Whether each of `events` answers what is due when it comes.
pub open spec fn drain_answers(events: Seq<DrainEvent>) -> bool
    decreases events.len(),
{
    events.len() > 0 ==> {
        &&& drain_answers(events.drop_last())
        &&& match drain_due(events.drop_last()) {
            DrainStep::ReadLine => events.last() is Line || events.last() is Undecodable
                || events.last() is Ended || events.last() is ReadFailed,
            DrainStep::SendUrl(_) => events.last() is Sent || events.last() is ReceiverGone,
            DrainStep::Stop => false,
        }
    }
}

/// The URLs that the lines among `events` announce, in order.
pub open spec fn urls_read(events: Seq<DrainEvent>) -> Seq<Seq<char>>
    decreases events.len(),
{
    if events.len() == 0 {
        Seq::empty()
    } else {
        let before = urls_read(events.drop_last());
        match events.last() {
            DrainEvent::Line(line) => match announced_url(line@) {
                Some(url) => before.push(url),
                None => before,
            },
            _ => before,
        }
    }
}

/// The URLs that were handed over while `events` came in, in order.
pub open spec fn urls_sent(events: Seq<DrainEvent>) -> Seq<Seq<char>>
    decreases events.len(),
{
    if events.len() == 0 {
        Seq::empty()
    } else {
        let before = urls_sent(events.drop_last());
        match (drain_due(events.drop_last()), events.last()) {
            (DrainStep::SendUrl(url), DrainEvent::Sent) => before.push(url),
            _ => before,
        }
    }
}

/// A drain hands over every URL that the lines announce, once and in order:
/// none is missing but the one that is still due, or that nobody took.
pub proof fn drain_hands_over_every_url(events: Seq<DrainEvent>)
    requires
        drain_answers(events),
    ensures
        match drain_due(events) {
            DrainStep::SendUrl(url) => urls_read(events) == urls_sent(events).push(url),
            _ => events.len() > 0 && events.last() is ReceiverGone || urls_read(events)
                == urls_sent(events),
        },
        events.len() > 0 && events.last() is ReceiverGone ==> urls_read(events).len() > 0
            && urls_read(events).drop_last() == urls_sent(events),
    decreases events.len(),
{
    if events.len() > 0 {
        drain_hands_over_every_url(events.drop_last());
        if events.last() is ReceiverGone {
            assert(urls_read(events).drop_last() =~= urls_sent(events));
        }
    }
}

/// The lines among `events`, in order; `None` stands for one that is not UTF-8.
pub open spec fn lines_read(events: Seq<DrainEvent>) -> Seq<Option<Seq<char>>>
    decreases events.len(),
{
    if events.len() == 0 {
        Seq::empty()
    } else {
        let before = lines_read(events.drop_last());
        match events.last() {
            DrainEvent::Line(line) => before.push(Some(line@)),
            DrainEvent::Undecodable => before.push(None),
            _ => before,
        }
    }
}

/// The URL that the first of `lines` to announce one announces.
pub open spec fn first_announced(lines: Seq<Option<Seq<char>>>) -> Option<Seq<char>>
    decreases lines.len(),
{
    if lines.len() == 0 {
        None
    } else {
        match (first_announced(lines.drop_last()), lines.last()) {
            (Some(url), _) => Some(url),
            (None, Some(line)) => announced_url(line),
            (None, None) => None,
        }
    }
}

/// What a channel brings its receiver after `urls` were sent and the sender is
/// gone: the first of them, if there is one, and otherwise word that nothing
/// can come.
pub open spec fn brought_by_closed_channel(urls: Seq<Seq<char>>, reply: ReadyReply) -> bool {
    if urls.len() > 0 {
        reply matches ReadyReply::Url(url) && url@ == urls[0]
    } else {
        reply is Disconnected
    }
}

proof fn lemma_first_announced(events: Seq<DrainEvent>)
    ensures
        first_announced(lines_read(events)) == (if urls_read(events).len() > 0 {
            Some(urls_read(events)[0])
        } else {
            None
        }),
    decreases events.len(),
{
    if events.len() > 0 {
        lemma_first_announced(events.drop_last());
        if events.last() is Line || events.last() is Undecodable {
            assert(lines_read(events).drop_last() =~= lines_read(events.drop_last()));
        }
    }
}

/// The wait gets what the drain read: over an output that has come to its end,
/// it comes to the URL of the first line that announces one; without such a
/// line, to an exit before readiness; and never to a timeout.
pub proof fn the_wait_gets_the_first_url_drained(events: Seq<DrainEvent>, reply: ReadyReply)
    requires
        drain_answers(events),
        events.len() > 0,
        events.last() is Ended || events.last() is ReadFailed,
        brought_by_closed_channel(urls_sent(events), reply),
    ensures
        match first_announced(lines_read(events)) {
            Some(url) => wait_result(reply) matches Ok(found) && found@ == url,
            None => wait_result(reply) == Err::<String, ServiceError>(
                ServiceError::ExitedBeforeReady { code: None },
            ),
        },
{
    drain_hands_over_every_url(events);
    lemma_first_announced(events);
}

/// The texts of `lines`.
pub open spec fn texts_of(lines: Seq<Option<String>>) -> Seq<Option<Seq<char>>> {
    Seq::new(lines.len(), |i: int| text::opt_text(lines[i]))
}

/// What a drain is told that reads `lines` while its URLs are taken. `None`
/// stands for a line that is not UTF-8.
pub open spec fn drain_of(lines: Seq<Option<String>>) -> Seq<DrainEvent>
    decreases lines.len(),
{
    if lines.len() == 0 {
        Seq::empty()
    } else {
        let before = drain_of(lines.drop_last());
        match lines.last() {
            Some(line) => if announced_url(line@) is Some {
                before.push(DrainEvent::Line(line)).push(DrainEvent::Sent)
            } else {
                before.push(DrainEvent::Line(line))
            },
            None => before.push(DrainEvent::Undecodable),
        }
    }
}

/// A drain takes any lines to their end, be they UTF-8 or not: after them it is
/// ready to read on, and it has read them all.
pub proof fn a_drain_reads_every_line(lines: Seq<Option<String>>)
    ensures
        drain_answers(drain_of(lines)),
        drain_due(drain_of(lines)) is ReadLine,
        lines_read(drain_of(lines)) == texts_of(lines),
    decreases lines.len(),
{
    if lines.len() > 0 {
        let before = drain_of(lines.drop_last());
        a_drain_reads_every_line(lines.drop_last());
        let event = match lines.last() {
            Some(line) => DrainEvent::Line(line),
            None => DrainEvent::Undecodable,
        };
        let read = before.push(event);
        assert(read.drop_last() =~= before);
        assert(drain_answers(read));
        assert(lines_read(read) == lines_read(before).push(text::opt_text(lines.last())));
        assert(texts_of(lines.drop_last()).push(text::opt_text(lines.last())) =~= texts_of(lines));
        assert(read.push(DrainEvent::Sent).drop_last() =~= read);
    } else {
        assert(texts_of(lines) =~= Seq::empty());
    }
}

/// For any lines of output: when the drain has come to their end, the wait
/// comes to the URL of the first line that announces one, and to an exit before
/// readiness when there is none.
pub proof fn the_wait_gets_the_first_url_of_the_output(lines: Seq<Option<String>>, reply: ReadyReply)
    requires
        brought_by_closed_channel(urls_sent(drain_of(lines).push(DrainEvent::Ended)), reply),
    ensures
        match first_announced(texts_of(lines)) {
            Some(url) => wait_result(reply) matches Ok(found) && found@ == url,
            None => wait_result(reply) == Err::<String, ServiceError>(
                ServiceError::ExitedBeforeReady { code: None },
            ),
        },
{
    a_drain_reads_every_line(lines);
    let events = drain_of(lines).push(DrainEvent::Ended);
    assert(events.drop_last() =~= drain_of(lines));
    the_wait_gets_the_first_url_drained(events, reply);
}

/// What a drain does is what its step says, text for text.
pub proof fn a_drain_step_is_its_action(action: DrainAction)
    ensures
        action is ReadLine <==> action@ is ReadLine,
        action is Stop <==> action@ is Stop,
        action matches DrainAction::SendUrl(url) ==> action@ == DrainStep::SendUrl(url@),
{
}

} // verus!
