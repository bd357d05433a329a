//! Connection establishment.
//!
//! A freshly opened device talks an interactive text shell. The host waits for
//! the shell's prompt, types the command that starts an RPC session, waits
//! until the shell has echoed that command, and from then on treats the stream
//! as binary frames only.
//!
//! The waiting is done on a short memory of the stream, a [`PatternWindow`]
//! holding the last [`WINDOW_LEN`] bytes seen. [`Handshake`] is the sequence of
//! steps as a state machine: the runtime reports what happened on the stream as
//! an [`Event`] and is told what to do next as an [`Action`]. Each of the two
//! waits may last [`HANDSHAKE_TIMEOUT_SECS`], counted by the runtime from the
//! moment the wait's phase is entered.
//!
//! The echo that ends the second wait is the command as the host wrote it,
//! byte for byte. What the device sends behind the echo is no concern of the
//! handshake.

use crate::error::Error;
use vstd::prelude::*;
use vstd::slice::{slice_subrange, slice_to_vec};

verus! {

/// The shell's prompt: a line feed followed by `>: `.
pub const CLI_PROMPT: [u8; 4] = [0x0a, 0x3e, 0x3a, 0x20];

/// The command line that starts an RPC session: `start_rpc_session`, a
/// carriage return and a line feed.
pub const START_RPC_COMMAND: [u8; 19] = [
    0x73, 0x74, 0x61, 0x72, 0x74, 0x5f, 0x72, 0x70, 0x63, 0x5f,
    0x73, 0x65, 0x73, 0x73, 0x69, 0x6f, 0x6e, 0x0d, 0x0a,
];

/// How many bytes of [`START_RPC_COMMAND`] the host sends, and then waits to
/// see echoed: all but the final line feed, which the device would take for
/// the first byte of the first frame.
pub const COMMAND_WRITE_LEN: usize = 18;

/// How many of the most recent bytes a [`PatternWindow`] remembers.
pub const WINDOW_LEN: usize = 32;

/// The most bytes a runtime should ask the stream for in one read.
pub const READ_BUFFER_LEN: usize = 1024;

/// Seconds a single wait for the prompt or for the echo may last.
pub const HANDSHAKE_TIMEOUT_SECS: u64 = 5;

/// Line speed of the device's serial port.
pub const FLIPPER_BAUD_RATE: u32 = 115200;

/// The command as the host writes it: the first [`COMMAND_WRITE_LEN`] bytes of
/// [`START_RPC_COMMAND`].
pub open spec fn written_command() -> Seq<u8> {
    START_RPC_COMMAND@.take(COMMAND_WRITE_LEN as int)
}

/// The part of the command that is still to be written when `from` bytes of
/// it have gone out: what an [`Action::Write`] asks the runtime to write.
pub fn command_bytes(from: usize) -> (bytes: Vec<u8>)
    requires
        from <= COMMAND_WRITE_LEN,
    ensures
        bytes@ == START_RPC_COMMAND@.subrange(from as int, COMMAND_WRITE_LEN as int),
        bytes@ == written_command().skip(from as int),
{
    let command = START_RPC_COMMAND;
    let bytes = slice_to_vec(slice_subrange(command.as_slice(), from, COMMAND_WRITE_LEN));
    assert(bytes@ =~= written_command().skip(from as int));
    bytes
}

/// The last `n` elements of `s`, or all of `s` if it has no more than `n`.
pub open spec fn trailing(s: Seq<u8>, n: nat) -> Seq<u8> {
    if s.len() <= n {
        s
    } else {
        s.subrange(s.len() - n, s.len() as int)
    }
}

/// `needle` stands in `hay` at index `at`.
pub open spec fn occurs_at(hay: Seq<u8>, needle: Seq<u8>, at: int) -> bool {
    &&& 0 <= at
    &&& at + needle.len() <= hay.len()
    &&& hay.subrange(at, at + needle.len()) == needle
}

/// `needle` stands somewhere in `hay` as a run of adjacent bytes.
pub open spec fn occurs(hay: Seq<u8>, needle: Seq<u8>) -> bool {
    exists|at: int| occurs_at(hay, needle, at)
}

/// Whether `needle` stands in `hay` at index `at`.
pub fn matches_at(hay: &[u8], needle: &[u8], at: usize) -> (found: bool)
    ensures
        found == occurs_at(hay@, needle@, at as int),
{
    if at > hay.len() || needle.len() > hay.len() - at {
        return false;
    }
    let mut k: usize = 0;
    while k < needle.len()
        invariant
            k <= needle@.len(),
            at + needle@.len() <= hay@.len() == hay.len(),
            forall|j: int| 0 <= j < k ==> hay@[at + j] == needle@[j],
        decreases needle@.len() - k,
    {
        if hay[at + k] != needle[k] {
            return false;
        }
        k += 1;
    }
    assert(hay@.subrange(at as int, at + needle@.len()) =~= needle@);
    true
}

/// Whether `needle`, which is not empty, stands somewhere in `hay`.
pub fn contains(hay: &[u8], needle: &[u8]) -> (found: bool)
    requires
        needle@.len() > 0,
    ensures
        found == occurs(hay@, needle@),
{
    if hay.len() < needle.len() {
        return false;
    }
    let last: usize = hay.len() - needle.len();
    let mut at: usize = 0;
    while at <= last
        invariant
            at <= last + 1,
            needle@.len() > 0,
            last + needle@.len() == hay@.len() <= usize::MAX,
            forall|i: int| 0 <= i < at ==> !occurs_at(hay@, needle@, i),
        decreases last + 1 - at,
    {
        if matches_at(hay, needle, at) {
            return true;
        }
        at += 1;
    }
    false
}

/// The last [`WINDOW_LEN`] bytes read from a stream.
pub struct PatternWindow {
    recent: Vec<u8>,
}

impl View for PatternWindow {
    type V = Seq<u8>;

    closed spec fn view(&self) -> Seq<u8> {
        self.recent@
    }
}

impl PatternWindow {
    /// A window that has seen nothing.
    pub fn new() -> (window: Self)
        ensures
            window@ == Seq::<u8>::empty(),
    {
        PatternWindow { recent: Vec::new() }
    }

    /// The remembered bytes, oldest first.
    pub fn recent(&self) -> (bytes: &[u8])
        ensures
            bytes@ == self@,
    {
        self.recent.as_slice()
    }

    /// Takes in `chunk`, the bytes of one read, and says whether `pattern`,
    /// which is not empty, now stands in the window. The window is cut back
    /// to its last [`WINDOW_LEN`] bytes before it is searched, so a pattern
    /// that a long chunk carries ahead of its last [`WINDOW_LEN`] bytes goes
    /// unseen.
    pub fn observe(&mut self, chunk: &[u8], pattern: &[u8]) -> (seen: bool)
        requires
            pattern@.len() > 0,
        ensures
            final(self)@ == trailing(old(self)@ + chunk@, WINDOW_LEN as nat),
            seen == occurs(final(self)@, pattern@),
    {
        self.recent.extend_from_slice(chunk);
        if self.recent.len() > WINDOW_LEN {
            let cut: usize = self.recent.len() - WINDOW_LEN;
            let kept = self.recent.split_off(cut);
            self.recent = kept;
        }
        contains(self.recent.as_slice(), pattern)
    }
}

/// Where the handshake stands.
#[derive(Clone, Copy, Debug, PartialEq, Eq, Structural)]
pub enum Phase {
    /// Reading until the shell's prompt shows up.
    AwaitPrompt,
    /// Writing the command, which the stream may take in several pieces.
    SendCommand,
    /// The command is written and has to be flushed.
    FlushCommand,
    /// Reading until the shell has echoed the command.
    AwaitEcho,
    /// The stream now carries frames.
    Established,
    /// The handshake was given up.
    Failed(Error),
}

/// What the runtime observed while carrying out the last [`Action`].
#[derive(Debug, PartialEq, Eq)]
pub enum Event {
    /// A read returned these bytes.
    Received(Vec<u8>),
    /// A write took this many bytes.
    Written(usize),
    /// A flush completed.
    Flushed,
    /// The current wait has lasted [`HANDSHAKE_TIMEOUT_SECS`].
    TimedOut,
    /// A read, a write or a flush failed.
    IoFailed,
}

/// An [`Event`] with its bytes as a sequence.
pub enum EventView {
    Received(Seq<u8>),
    Written(usize),
    Flushed,
    TimedOut,
    IoFailed,
}

impl View for Event {
    type V = EventView;

    open spec fn view(&self) -> EventView {
        match *self {
            Event::Received(bytes) => EventView::Received(bytes@),
            Event::Written(n) => EventView::Written(n),
            Event::Flushed => EventView::Flushed,
            Event::TimedOut => EventView::TimedOut,
            Event::IoFailed => EventView::IoFailed,
        }
    }
}

/// What the runtime has to do next.
#[derive(Clone, Copy, Debug, PartialEq, Eq, Structural)]
pub enum Action {
    /// Read from the stream, for no longer than the current wait has left,
    /// and report [`Event::Received`], [`Event::TimedOut`] or
    /// [`Event::IoFailed`].
    Read,
    /// Write [`command_bytes`] of `from`, the bytes of [`START_RPC_COMMAND`]
    /// from index `from` up to [`COMMAND_WRITE_LEN`], and report
    /// [`Event::Written`] or [`Event::IoFailed`].
    Write { from: usize },
    /// Flush the stream and report [`Event::Flushed`] or [`Event::IoFailed`].
    Flush,
    /// The handshake is done: hand the stream to the frame codec.
    Finish,
    /// Give up and report this error.
    Abort(Error),
}

/// The state of a handshake: its phase, the window of the current wait, and
/// how much of the command has been written.
pub struct HandshakeState {
    pub phase: Phase,
    pub window: Seq<u8>,
    pub written: nat,
}

/// The state in which a phase is entered.
pub open spec fn entering(phase: Phase) -> HandshakeState {
    HandshakeState { phase, window: Seq::empty(), written: 0 }
}

/// The state a handshake starts in.
pub open spec fn initial_state() -> HandshakeState {
    entering(Phase::AwaitPrompt)
}

/// What a wait in `phase` looks for: the prompt before the command is sent,
/// and after that the command as it was written.
pub open spec fn awaited(phase: Phase) -> Seq<u8> {
    if phase == Phase::AwaitPrompt {
        CLI_PROMPT@
    } else {
        written_command()
    }
}

/// One step of a wait: `chunk` enters the window, and the handshake moves on
/// to `then` if what the wait looks for now stands in the window.
pub open spec fn await_step(s: HandshakeState, chunk: Seq<u8>, then: Phase) -> HandshakeState {
    let window = trailing(s.window + chunk, WINDOW_LEN as nat);
    if occurs(window, awaited(s.phase)) {
        entering(then)
    } else {
        HandshakeState { window, ..s }
    }
}

/// The state that follows `s` when `e` is reported. An event that the phase
/// of `s` does not wait for changes nothing.
pub open spec fn next_state(s: HandshakeState, e: EventView) -> HandshakeState {
    match (s.phase, e) {
        (Phase::AwaitPrompt, EventView::Received(chunk)) => await_step(
            s,
            chunk,
            Phase::SendCommand,
        ),
        (Phase::AwaitEcho, EventView::Received(chunk)) => await_step(
            s,
            chunk,
            Phase::Established,
        ),
        (Phase::AwaitPrompt, EventView::TimedOut) | (Phase::AwaitEcho, EventView::TimedOut) => {
            entering(Phase::Failed(Error::HandshakeTimeout))
        },
        (Phase::SendCommand, EventView::Written(n)) => {
            if s.written + n >= COMMAND_WRITE_LEN {
                entering(Phase::FlushCommand)
            } else {
                HandshakeState { written: s.written + n as nat, ..s }
            }
        },
        (Phase::FlushCommand, EventView::Flushed) => entering(Phase::AwaitEcho),
        (Phase::AwaitPrompt, EventView::IoFailed)
        | (Phase::SendCommand, EventView::IoFailed)
        | (Phase::FlushCommand, EventView::IoFailed)
        | (Phase::AwaitEcho, EventView::IoFailed) => entering(Phase::Failed(Error::Io)),
        _ => s,
    }
}

/// While the command is being written, some of it is still to be sent. This
/// holds of the initial state and of every state that follows a state it
/// holds of, and so of every [`Handshake`].
pub open spec fn well_formed(s: HandshakeState) -> bool {
    s.phase == Phase::SendCommand ==> s.written < COMMAND_WRITE_LEN
}

/// Whether the step that took the handshake from the phase `before` to the
/// phase `after` began a wait, so that the time allowed for a wait counts
/// from now. The wait for the prompt begins with the handshake itself; the
/// wait for the echo begins when its phase is entered.
pub open spec fn begins_wait(before: Phase, after: Phase) -> bool {
    after == Phase::AwaitEcho && before != Phase::AwaitEcho
}

/// Whether a step from `before` to `after` began a wait.
pub fn wait_begins(before: Phase, after: Phase) -> (fresh: bool)
    ensures
        fresh == begins_wait(before, after),
{
    match (before, after) {
        (Phase::AwaitEcho, _) => false,
        (_, Phase::AwaitEcho) => true,
        _ => false,
    }
}

/// What the runtime has to do in state `s`.
pub open spec fn action_of(s: HandshakeState) -> Action {
    match s.phase {
        Phase::AwaitPrompt | Phase::AwaitEcho => Action::Read,
        Phase::SendCommand => Action::Write { from: s.written as usize },
        Phase::FlushCommand => Action::Flush,
        Phase::Established => Action::Finish,
        Phase::Failed(error) => Action::Abort(error),
    }
}

/// The handshake of one connection.
pub struct Handshake {
    phase: Phase,
    window: PatternWindow,
    written: usize,
}

impl View for Handshake {
    type V = HandshakeState;

    closed spec fn view(&self) -> HandshakeState {
        HandshakeState { phase: self.phase, window: self.window@, written: self.written as nat }
    }
}

impl Handshake {
    #[verifier::type_invariant]
    spec fn is_well_formed(self) -> bool {
        well_formed(self@)
    }

    /// A handshake that waits for the prompt.
    pub fn new() -> (handshake: Self)
        ensures
            handshake@ == initial_state(),
    {
        Handshake { phase: Phase::AwaitPrompt, window: PatternWindow::new(), written: 0 }
    }

    /// The phase the handshake is in.
    pub fn phase(&self) -> (phase: Phase)
        ensures
            phase == self@.phase,
    {
        self.phase
    }

    /// What the runtime has to do now. An [`Action::Write`] always leaves
    /// something to write.
    pub fn action(&self) -> (action: Action)
        ensures
            action == action_of(self@),
            action matches Action::Write { from } ==> from < COMMAND_WRITE_LEN,
    {
        proof {
            use_type_invariant(self);
        }
        match self.phase {
            Phase::AwaitPrompt | Phase::AwaitEcho => Action::Read,
            Phase::SendCommand => Action::Write { from: self.written },
            Phase::FlushCommand => Action::Flush,
            Phase::Established => Action::Finish,
            Phase::Failed(error) => Action::Abort(error),
        }
    }

    /// A handshake that has just moved to `phase`.
    fn enter(phase: Phase) -> (handshake: Self)
        ensures
            handshake@ == entering(phase),
    {
        Handshake { phase, window: PatternWindow::new(), written: 0 }
    }

    /// Takes in what the runtime observed and returns the handshake as it
    /// stands then, with what the runtime has to do next.
    pub fn step(self, event: Event) -> (next: (Self, Action))
        ensures
            next.0@ == next_state(self@, event@),
            next.1 == action_of(next.0@),
            next.1 matches Action::Write { from } ==> from < COMMAND_WRITE_LEN,
    {
        proof {
            use_type_invariant(&self);
        }
        let Handshake { phase, window, written } = self;
        let mut window = window;
        let handshake = match (phase, event) {
            (Phase::AwaitPrompt, Event::Received(chunk)) => {
                if window.observe(chunk.as_slice(), CLI_PROMPT.as_slice()) {
                    Handshake::enter(Phase::SendCommand)
                } else {
                    Handshake { phase, window, written }
                }
            },
            (Phase::AwaitEcho, Event::Received(chunk)) => {
                let command = command_bytes(0);
                if window.observe(chunk.as_slice(), command.as_slice()) {
                    Handshake::enter(Phase::Established)
                } else {
                    Handshake { phase, window, written }
                }
            },
            (Phase::AwaitPrompt, Event::TimedOut) | (Phase::AwaitEcho, Event::TimedOut) => {
                Handshake::enter(Phase::Failed(Error::HandshakeTimeout))
            },
            (Phase::SendCommand, Event::Written(n)) => {
                if n >= COMMAND_WRITE_LEN - written {
                    Handshake::enter(Phase::FlushCommand)
                } else {
                    Handshake { phase, window, written: written + n }
                }
            },
            (Phase::FlushCommand, Event::Flushed) => Handshake::enter(Phase::AwaitEcho),
            (Phase::AwaitPrompt, Event::IoFailed)
            | (Phase::SendCommand, Event::IoFailed)
            | (Phase::FlushCommand, Event::IoFailed)
            | (Phase::AwaitEcho, Event::IoFailed) => Handshake::enter(Phase::Failed(Error::Io)),
            _ => Handshake { phase, window, written },
        };
        let action = handshake.action();
        (handshake, action)
    }
}

/// The state after the reads `chunks` were reported to `s`, one by one.
pub open spec fn after_reads(s: HandshakeState, chunks: Seq<Seq<u8>>) -> HandshakeState
    decreases chunks.len(),
{
    if chunks.len() == 0 {
        s
    } else {
        next_state(after_reads(s, chunks.drop_last()), EventView::Received(chunks.last()))
    }
}

/// Cutting to the last `n` bytes before more bytes arrive loses nothing that
/// a cut after their arrival would keep.
pub proof fn lemma_trailing_append(a: Seq<u8>, b: Seq<u8>, n: nat)
    ensures
        trailing(trailing(a, n) + b, n) == trailing(a + b, n),
{
}

/// What stands in the last `n` bytes of `s` stands in `s`.
pub proof fn lemma_occurs_in_trailing(s: Seq<u8>, needle: Seq<u8>, n: nat)
    requires
        occurs(trailing(s, n), needle),
    ensures
        occurs(s, needle),
{
    let at = choose|at: int| occurs_at(trailing(s, n), needle, at);
    let shift: int = if s.len() <= n { 0 } else { s.len() - n };
    assert(s.subrange(at + shift, at + shift + needle.len()) =~= trailing(s, n).subrange(
        at,
        at + needle.len(),
    ));
    assert(occurs_at(s, needle, at + shift));
}

/// What stands in `a` stands in `a` followed by `b`.
pub proof fn lemma_occurs_in_prefix(a: Seq<u8>, b: Seq<u8>, needle: Seq<u8>)
    requires
        occurs(a, needle),
    ensures
        occurs(a + b, needle),
{
    let at = choose|at: int| occurs_at(a, needle, at);
    assert((a + b).subrange(at, at + needle.len()) =~= a.subrange(at, at + needle.len()));
    assert(occurs_at(a + b, needle, at));
}

/// Every step keeps a well-formed state well-formed.
pub proof fn law_well_formed_is_kept(s: HandshakeState, e: EventView)
    requires
        well_formed(s),
    ensures
        well_formed(initial_state()),
        well_formed(next_state(s, e)),
{
}

/// As long as what a wait looks for has not shown in the stream, the
/// handshake keeps waiting, however the stream was cut into reads, and its
/// window holds the last [`WINDOW_LEN`] bytes of the stream.
pub proof fn law_waits_while_nothing_shows(phase: Phase, chunks: Seq<Seq<u8>>)
    requires
        phase == Phase::AwaitPrompt || phase == Phase::AwaitEcho,
        !occurs(chunks.flatten(), awaited(phase)),
    ensures
        after_reads(entering(phase), chunks) == (HandshakeState {
            window: trailing(chunks.flatten(), WINDOW_LEN as nat),
            ..entering(phase)
        }),
    decreases chunks.len(),
{
    if chunks.len() > 0 {
        let earlier = chunks.drop_last();
        let chunk = chunks.last();
        assert(chunks =~= earlier.push(chunk));
        earlier.lemma_flatten_push(chunk);
        let stream = earlier.flatten();
        if occurs(stream, awaited(phase)) {
            lemma_occurs_in_prefix(stream, chunk, awaited(phase));
        }
        law_waits_while_nothing_shows(phase, earlier);
        lemma_trailing_append(stream, chunk, WINDOW_LEN as nat);
        if occurs(trailing(stream + chunk, WINDOW_LEN as nat), awaited(phase)) {
            lemma_occurs_in_trailing(stream + chunk, awaited(phase), WINDOW_LEN as nat);
        }
    }
}

/// Handshake timeout. A stream that never shows the prompt ends the
/// handshake in [`Error::HandshakeTimeout`] once the wait has run out,
/// whatever was read before; and so does a stream that never shows the echo,
/// once the command is sent.
pub proof fn law_silent_stream_times_out(phase: Phase, chunks: Seq<Seq<u8>>)
    requires
        phase == Phase::AwaitPrompt || phase == Phase::AwaitEcho,
        !occurs(chunks.flatten(), awaited(phase)),
    ensures
        next_state(after_reads(entering(phase), chunks), EventView::TimedOut) == entering(
            Phase::Failed(Error::HandshakeTimeout),
        ),
        action_of(next_state(after_reads(entering(phase), chunks), EventView::TimedOut))
            == Action::Abort(Error::HandshakeTimeout),
{
    law_waits_while_nothing_shows(phase, chunks);
}

/// What stands in the last `n` bytes of `b` stands in the last `n` bytes of
/// `a` followed by `b`.
pub proof fn lemma_occurs_in_later_bytes(a: Seq<u8>, b: Seq<u8>, needle: Seq<u8>, n: nat)
    requires
        occurs(trailing(b, n), needle),
    ensures
        occurs(trailing(a + b, n), needle),
{
    let at = choose|at: int| occurs_at(trailing(b, n), needle, at);
    let whole = trailing(a + b, n);
    let shift = whole.len() - trailing(b, n).len();
    assert(whole.subrange(at + shift, at + shift + needle.len()) =~= trailing(b, n).subrange(
        at,
        at + needle.len(),
    ));
    assert(occurs_at(whole, needle, at + shift));
}

/// A read that shows what the wait looks for within its last [`WINDOW_LEN`]
/// bytes ends the wait, whatever was read before: the prompt is followed by
/// the sending of the command, the echo by the end of the handshake.
pub proof fn law_wait_ends_when_pattern_shows(s: HandshakeState, chunk: Seq<u8>)
    requires
        s.phase == Phase::AwaitPrompt || s.phase == Phase::AwaitEcho,
        occurs(trailing(chunk, WINDOW_LEN as nat), awaited(s.phase)),
    ensures
        next_state(s, EventView::Received(chunk)) == entering(
            if s.phase == Phase::AwaitPrompt {
                Phase::SendCommand
            } else {
                Phase::Established
            },
        ),
{
    lemma_occurs_in_later_bytes(s.window, chunk, awaited(s.phase), WINDOW_LEN as nat);
}

/// The state after the stream took `counts` bytes in successive writes.
pub open spec fn after_writes(s: HandshakeState, counts: Seq<usize>) -> HandshakeState
    decreases counts.len(),
{
    if counts.len() == 0 {
        s
    } else {
        next_state(after_writes(s, counts.drop_last()), EventView::Written(counts.last()))
    }
}

/// The sum of `counts`.
pub open spec fn total(counts: Seq<usize>) -> nat
    decreases counts.len(),
{
    if counts.len() == 0 {
        0
    } else {
        total(counts.drop_last()) + counts.last() as nat
    }
}

/// Partial writes add up. While the stream has taken less than the whole
/// command, the handshake asks for the rest, from where the writes so far
/// have ended; the write that completes the command is followed by the
/// flush.
pub proof fn law_partial_writes_add_up(counts: Seq<usize>, last: usize)
    requires
        total(counts) < COMMAND_WRITE_LEN,
    ensures
        after_writes(entering(Phase::SendCommand), counts) == (HandshakeState {
            written: total(counts),
            ..entering(Phase::SendCommand)
        }),
        action_of(after_writes(entering(Phase::SendCommand), counts)) == (Action::Write {
            from: total(counts) as usize,
        }),
        total(counts) + last >= COMMAND_WRITE_LEN ==> next_state(
            after_writes(entering(Phase::SendCommand), counts),
            EventView::Written(last),
        ) == entering(Phase::FlushCommand),
    decreases counts.len(),
{
    if counts.len() > 0 {
        law_partial_writes_add_up(counts.drop_last(), counts.last());
    }
}

/// A sequence stands in itself.
pub proof fn lemma_occurs_in_itself(s: Seq<u8>)
    ensures
        occurs(s, s),
{
    assert(s.subrange(0, s.len() as int) =~= s);
    assert(occurs_at(s, s, 0));
}

/// The echo. When the device sends back exactly the bytes the host wrote, the
/// wait for the echo ends and the handshake is done.
pub proof fn law_exact_echo_ends_handshake()
    ensures
        next_state(entering(Phase::AwaitEcho), EventView::Received(written_command()))
            == entering(Phase::Established),
        action_of(next_state(entering(Phase::AwaitEcho), EventView::Received(written_command())))
            == Action::Finish,
{
    lemma_occurs_in_itself(written_command());
    assert(trailing(written_command(), WINDOW_LEN as nat) == written_command());
    law_wait_ends_when_pattern_shows(entering(Phase::AwaitEcho), written_command());
}

/// From prompt to session. A new handshake that reads the prompt is told to
/// write the command from its start; a write that takes the whole command is
/// followed by the flush, the flush by the wait for the echo, and the exact
/// echo of what was written by the end of the handshake.
pub proof fn law_handshake_completes()
    ensures
        action_of(initial_state()) == Action::Read,
        next_state(initial_state(), EventView::Received(CLI_PROMPT@)) == entering(
            Phase::SendCommand,
        ),
        action_of(entering(Phase::SendCommand)) == (Action::Write { from: 0 }),
        next_state(entering(Phase::SendCommand), EventView::Written(COMMAND_WRITE_LEN))
            == entering(Phase::FlushCommand),
        action_of(entering(Phase::FlushCommand)) == Action::Flush,
        next_state(entering(Phase::FlushCommand), EventView::Flushed) == entering(
            Phase::AwaitEcho,
        ),
        action_of(entering(Phase::AwaitEcho)) == Action::Read,
        next_state(entering(Phase::AwaitEcho), EventView::Received(written_command()))
            == entering(Phase::Established),
        action_of(entering(Phase::Established)) == Action::Finish,
{
    lemma_occurs_in_itself(CLI_PROMPT@);
    assert(trailing(CLI_PROMPT@, WINDOW_LEN as nat) == CLI_PROMPT@);
    law_wait_ends_when_pattern_shows(initial_state(), CLI_PROMPT@);
    law_exact_echo_ends_handshake();
}

/// Only the step that brings the handshake to wait for the echo begins a
/// wait: no step leads back to the wait for the prompt.
pub proof fn law_waits_begin_once(s: HandshakeState, e: EventView)
    ensures
        next_state(s, e).phase == Phase::AwaitPrompt ==> s.phase == Phase::AwaitPrompt,
        begins_wait(s.phase, next_state(s, e).phase) <==> s.phase == Phase::FlushCommand && e
            == EventView::Flushed,
{
}

} // verus!
