//! The handshake as a state machine: from the current phase and what the
//! link last reported to the next phase and the next thing to do on the link.
//!
//! Probe for the bootloader, optionally wait for a manual reset, request
//! program mode, stream the payload, await its confirmation, then run.

use vstd::prelude::*;
use crate::matcher::{SequenceMatcher, contains};
use crate::protocol::{Command, Sequence, command_bytes, sequence_bytes};
use crate::wait::{Event, WaitOutcome, byte_events, wait_outcome, wait_step};

verus! {

/// Why a handshake was abandoned.
#[derive(Copy, Clone, Debug, PartialEq, Eq, Structural)]
pub enum DeviceError {
    /// A bounded wait elapsed without the expected marker.
    Timeout,
    /// The stream ended before the expected marker.
    Disconnected,
    /// Any other transport failure.
    Io,
}

/// The read timeout to put in force.
#[derive(Copy, Clone, Debug, PartialEq, Eq, Structural)]
pub enum ReadTimeout {
    /// The default bound, used in every responsive phase.
    Bounded,
    /// No bound: used only while waiting for a manual reset.
    Unbounded,
}

/// What the link is to do next.
#[derive(Copy, Clone, Debug, PartialEq, Eq, Structural)]
pub enum Action {
    /// Write the bytes of a command.
    Send(Command),
    /// Read one byte.
    Read,
    SetTimeout(ReadTimeout),
    /// Discard what is buffered on the input side.
    ClearInput,
    /// Write the whole payload.
    StreamPayload,
    /// The program runs; the payload had this many bytes.
    Finish(u64),
    /// The handshake failed.
    Abort(DeviceError),
}

/// Where the handshake stands.
#[derive(Copy, Clone, Debug, PartialEq, Eq, Structural)]
pub enum Phase {
    /// The link was opened; nothing was sent yet.
    Opened,
    /// The help request is being written.
    Probing,
    /// Reading with the bounded timeout for the help screen.
    AwaitingHelp,
    /// The unbounded timeout is being put in force.
    EnteringReset,
    /// Stale input is being discarded.
    ClearingInput,
    /// Reading, without a bound, for the help screen after a reset.
    AwaitingReset,
    /// The bounded timeout is being put back.
    RestoringTimeout,
    /// The program request is being written.
    RequestingProgram,
    AwaitingProgramming,
    /// The payload is being written.
    Streaming,
    /// Awaiting the upload confirmation for a payload of this many bytes.
    AwaitingUpload(u64),
    /// The run command is being written.
    StartingRun(u64),
    /// Terminal: the program runs.
    Running(u64),
    /// Terminal: the handshake failed.
    Failed(DeviceError),
}

/// The marker awaited in each phase that reads.
pub open spec fn awaited(phase: Phase) -> Option<Sequence> {
    match phase {
        Phase::AwaitingHelp => Some(Sequence::HelpScreen),
        Phase::AwaitingReset => Some(Sequence::HelpScreen),
        Phase::AwaitingProgramming => Some(Sequence::Programming),
        Phase::AwaitingUpload(_) => Some(Sequence::UploadComplete),
        _ => None,
    }
}

/// What the initial probe concludes: the device answers (`true`), stays
/// silent within the bound (`false`, not an error), or the link fails.
pub open spec fn probe_verdict(outcome: WaitOutcome) -> Result<bool, DeviceError> {
    match outcome {
        WaitOutcome::Matched => Ok(true),
        WaitOutcome::TimedOut => Ok(false),
        WaitOutcome::Eof => Err(DeviceError::Disconnected),
        WaitOutcome::Failed => Err(DeviceError::Io),
    }
}

/// The error that a failed wait stands for where a timeout is fatal.
pub open spec fn wait_error(outcome: WaitOutcome) -> DeviceError {
    match outcome {
        WaitOutcome::TimedOut => DeviceError::Timeout,
        WaitOutcome::Eof => DeviceError::Disconnected,
        _ => DeviceError::Io,
    }
}

/// The abstract state of a handshake: its phase, the bytes read so far in a
/// phase that awaits a marker, and whether a silent device is waited for.
pub struct HandshakeView {
    pub phase: Phase,
    pub seen: Seq<u8>,
    pub wait_for_reset: bool,
}

/// A handshake just opened.
pub open spec fn initial(wait_for_reset: bool) -> HandshakeView {
    HandshakeView { phase: Phase::Opened, seen: Seq::empty(), wait_for_reset }
}

/// Moving to `phase` with nothing read in it yet.
pub open spec fn enter(v: HandshakeView, phase: Phase) -> HandshakeView {
    HandshakeView { phase, seen: Seq::empty(), wait_for_reset: v.wait_for_reset }
}

/// Where a phase that awaits a marker goes when its wait ends.
pub open spec fn after_wait(v: HandshakeView, outcome: WaitOutcome) -> (Phase, Action) {
    match v.phase {
        Phase::AwaitingHelp => match probe_verdict(outcome) {
            Ok(true) => (Phase::RequestingProgram, Action::Send(Command::Program)),
            Ok(false) => if v.wait_for_reset {
                (Phase::EnteringReset, Action::SetTimeout(ReadTimeout::Unbounded))
            } else {
                (Phase::Failed(DeviceError::Timeout), Action::Abort(DeviceError::Timeout))
            },
            Err(e) => (Phase::Failed(e), Action::Abort(e)),
        },
        _ => if outcome == WaitOutcome::Matched {
            match v.phase {
                Phase::AwaitingReset => (
                    Phase::RestoringTimeout,
                    Action::SetTimeout(ReadTimeout::Bounded),
                ),
                Phase::AwaitingProgramming => (Phase::Streaming, Action::StreamPayload),
                Phase::AwaitingUpload(n) => (Phase::StartingRun(n), Action::Send(Command::Run)),
                _ => (v.phase, Action::Read),
            }
        } else {
            (Phase::Failed(wait_error(outcome)), Action::Abort(wait_error(outcome)))
        },
    }
}

/// Where a phase that does not read goes once its step completed.
pub open spec fn after_done(phase: Phase) -> (Phase, Action) {
    match phase {
        Phase::Opened => (Phase::Probing, Action::Send(Command::ShowHelp)),
        Phase::Probing => (Phase::AwaitingHelp, Action::Read),
        Phase::EnteringReset => (Phase::ClearingInput, Action::ClearInput),
        Phase::ClearingInput => (Phase::AwaitingReset, Action::Read),
        Phase::RestoringTimeout => (Phase::RequestingProgram, Action::Send(Command::Program)),
        Phase::RequestingProgram => (Phase::AwaitingProgramming, Action::Read),
        Phase::StartingRun(n) => (Phase::Running(n), Action::Finish(n)),
        _ => (phase, Action::Read),
    }
}

/// One step of the handshake: the next state and action after `event`.
pub open spec fn transition(v: HandshakeView, event: Event) -> (HandshakeView, Action) {
    match v.phase {
        Phase::Running(n) => (v, Action::Finish(n)),
        Phase::Failed(e) => (v, Action::Abort(e)),
        _ => match awaited(v.phase) {
            Some(marker) => match event {
                Event::Byte(b) => if contains(v.seen + seq![b], sequence_bytes(marker)) {
                    let (p, a) = after_wait(v, WaitOutcome::Matched);
                    (enter(v, p), a)
                } else {
                    (HandshakeView { seen: v.seen + seq![b], ..v }, Action::Read)
                },
                Event::TimedOut => {
                    let (p, a) = after_wait(v, WaitOutcome::TimedOut);
                    (enter(v, p), a)
                },
                Event::Eof => {
                    let (p, a) = after_wait(v, WaitOutcome::Eof);
                    (enter(v, p), a)
                },
                _ => {
                    let (p, a) = after_wait(v, WaitOutcome::Failed);
                    (enter(v, p), a)
                },
            },
            None => match (v.phase, event) {
                (Phase::Streaming, Event::Streamed(n)) => (
                    enter(v, Phase::AwaitingUpload(n)),
                    Action::Read,
                ),
                (Phase::Streaming, _) => (
                    enter(v, Phase::Failed(DeviceError::Io)),
                    Action::Abort(DeviceError::Io),
                ),
                (_, Event::Done) => {
                    let (p, a) = after_done(v.phase);
                    (enter(v, p), a)
                },
                _ => (enter(v, Phase::Failed(DeviceError::Io)), Action::Abort(DeviceError::Io)),
            },
        },
    }
}

/// The actions a handshake in state `v` issues in reply to `events`.
pub open spec fn run(v: HandshakeView, events: Seq<Event>) -> Seq<Action>
    decreases events.len(),
{
    if events.len() == 0 {
        Seq::empty()
    } else {
        let (next, a) = transition(v, events[0]);
        seq![a] + run(next, events.drop_first())
    }
}

/// The bytes an action puts on the link, the payload aside.
pub open spec fn action_bytes(a: Action) -> Seq<u8> {
    match a {
        Action::Send(c) => command_bytes(c),
        _ => Seq::empty(),
    }
}

/// The command bytes that `actions` put on the link, in order.
pub open spec fn transmitted(actions: Seq<Action>) -> Seq<u8>
    decreases actions.len(),
{
    if actions.len() == 0 {
        Seq::empty()
    } else {
        transmitted(actions.drop_last()) + action_bytes(actions.last())
    }
}

/// Reads the probe's answer out of how its wait ended.
pub fn probe_result(outcome: WaitOutcome) -> (r: Result<bool, DeviceError>)
    ensures
        r == probe_verdict(outcome),
{
    match outcome {
        WaitOutcome::Matched => Ok(true),
        WaitOutcome::TimedOut => Ok(false),
        WaitOutcome::Eof => Err(DeviceError::Disconnected),
        WaitOutcome::Failed => Err(DeviceError::Io),
    }
}

fn failure(outcome: WaitOutcome) -> (r: DeviceError)
    ensures
        r == wait_error(outcome),
{
    match outcome {
        WaitOutcome::TimedOut => DeviceError::Timeout,
        WaitOutcome::Eof => DeviceError::Disconnected,
        _ => DeviceError::Io,
    }
}

fn awaited_in(phase: Phase) -> (r: Option<Sequence>)
    ensures
        r == awaited(phase),
{
    match phase {
        Phase::AwaitingHelp => Some(Sequence::HelpScreen),
        Phase::AwaitingReset => Some(Sequence::HelpScreen),
        Phase::AwaitingProgramming => Some(Sequence::Programming),
        Phase::AwaitingUpload(_) => Some(Sequence::UploadComplete),
        _ => None,
    }
}

/// One handshake with one device.
pub struct Handshake {
    phase: Phase,
    matcher: SequenceMatcher,
    wait_for_reset: bool,
}

impl View for Handshake {
    type V = HandshakeView;

    closed spec fn view(&self) -> HandshakeView {
        HandshakeView {
            phase: self.phase,
            seen: if awaited(self.phase) is Some {
                self.matcher.seen()
            } else {
                Seq::empty()
            },
            wait_for_reset: self.wait_for_reset,
        }
    }
}

impl Handshake {
    pub closed spec fn wf(&self) -> bool {
        &&& self.matcher.wf()
        &&& awaited(self.phase) matches Some(marker) ==> {
            &&& self.matcher.pattern() == sequence_bytes(marker)
            &&& !contains(self.matcher.seen(), sequence_bytes(marker))
        }
    }

    /// A handshake on a link just opened; with `wait_for_reset`, a device
    /// that does not answer the probe is waited for until it is reset.
    pub fn new(wait_for_reset: bool) -> (r: Self)
        ensures
            r.wf(),
            r@ == initial(wait_for_reset),
    {
        Handshake {
            phase: Phase::Opened,
            matcher: SequenceMatcher::new(Sequence::HelpScreen.as_bytes()),
            wait_for_reset,
        }
    }

    /// Where the handshake stands.
    pub fn phase(&self) -> (r: Phase)
        ensures
            r == self@.phase,
    {
        self.phase
    }

    /// Moves to `phase`, with a fresh matcher where it awaits a marker.
    fn enter(&mut self, phase: Phase)
        requires
            old(self).matcher.wf(),
        ensures
            final(self).wf(),
            final(self)@ == enter(old(self)@, phase),
    {
        self.phase = phase;
        match awaited_in(phase) {
            Some(marker) => {
                self.matcher = SequenceMatcher::new(marker.as_bytes());
            },
            None => {},
        }
    }

    fn after_wait(&self, outcome: WaitOutcome) -> (r: (Phase, Action))
        ensures
            r == after_wait(self@, outcome),
    {
        match self.phase {
            Phase::AwaitingHelp => match probe_result(outcome) {
                Ok(true) => (Phase::RequestingProgram, Action::Send(Command::Program)),
                Ok(false) => if self.wait_for_reset {
                    (Phase::EnteringReset, Action::SetTimeout(ReadTimeout::Unbounded))
                } else {
                    (Phase::Failed(DeviceError::Timeout), Action::Abort(DeviceError::Timeout))
                },
                Err(e) => (Phase::Failed(e), Action::Abort(e)),
            },
            _ => if outcome == WaitOutcome::Matched {
                match self.phase {
                    Phase::AwaitingReset => (
                        Phase::RestoringTimeout,
                        Action::SetTimeout(ReadTimeout::Bounded),
                    ),
                    Phase::AwaitingProgramming => (Phase::Streaming, Action::StreamPayload),
                    Phase::AwaitingUpload(n) => (
                        Phase::StartingRun(n),
                        Action::Send(Command::Run),
                    ),
                    _ => (self.phase, Action::Read),
                }
            } else {
                let e = failure(outcome);
                (Phase::Failed(e), Action::Abort(e))
            },
        }
    }

    /// Takes what the link reported after the last action and returns the
    /// next action. A terminal phase repeats its last action.
    pub fn step(&mut self, event: Event) -> (r: Action)
        requires
            old(self).wf(),
        ensures
            final(self).wf(),
            (final(self)@, r) == transition(old(self)@, event),
    {
        match self.phase {
            Phase::Running(n) => {
                return Action::Finish(n);
            },
            Phase::Failed(e) => {
                return Action::Abort(e);
            },
            _ => {},
        }
        match awaited_in(self.phase) {
            Some(marker) => {
                let ghost old_view = self@;
                match wait_step(&mut self.matcher, event) {
                    None => {
                        assert(self@ == (HandshakeView { seen: self@.seen, ..old_view }));
                        Action::Read
                    },
                    Some(outcome) => {
                        let (phase, action) = self.after_wait(outcome);
                        self.enter(phase);
                        action
                    },
                }
            },
            None => {
                let (phase, action) = match (self.phase, event) {
                    (Phase::Streaming, Event::Streamed(n)) => (Phase::AwaitingUpload(n), Action::Read),
                    (Phase::Streaming, _) => (
                        Phase::Failed(DeviceError::Io),
                        Action::Abort(DeviceError::Io),
                    ),
                    (_, Event::Done) => match self.phase {
                        Phase::Opened => (Phase::Probing, Action::Send(Command::ShowHelp)),
                        Phase::Probing => (Phase::AwaitingHelp, Action::Read),
                        Phase::EnteringReset => (Phase::ClearingInput, Action::ClearInput),
                        Phase::ClearingInput => (Phase::AwaitingReset, Action::Read),
                        Phase::RestoringTimeout => (
                            Phase::RequestingProgram,
                            Action::Send(Command::Program),
                        ),
                        Phase::RequestingProgram => (Phase::AwaitingProgramming, Action::Read),
                        Phase::StartingRun(n) => (Phase::Running(n), Action::Finish(n)),
                        _ => (self.phase, Action::Read),
                    },
                    _ => (Phase::Failed(DeviceError::Io), Action::Abort(DeviceError::Io)),
                };
                self.enter(phase);
                action
            },
        }
    }
}

/// Runs a handshake opened with `wait_for_reset` against the scripted link
/// reports `events`, the first of which reports the opening, and returns the
/// actions it issued, one per event.
pub fn simulate(wait_for_reset: bool, events: &[Event]) -> (r: Vec<Action>)
    ensures
        r@ == run(initial(wait_for_reset), events@),
{
    let mut handshake = Handshake::new(wait_for_reset);
    let mut actions: Vec<Action> = Vec::new();
    let mut i: usize = 0;
    assert(events@.skip(0) =~= events@);
    while i < events.len()
        invariant
            handshake.wf(),
            i <= events@.len(),
            run(initial(wait_for_reset), events@) == actions@ + run(handshake@, events@.skip(i as int)),
        decreases events@.len() - i,
    {
        let ghost before = handshake@;
        assert(events@.skip(i as int).drop_first() =~= events@.skip(i + 1));
        let action = handshake.step(events[i]);
        assert(actions@.push(action) + run(handshake@, events@.skip(i + 1)) =~= actions@ + (seq![action] + run(handshake@, events@.skip(i + 1))));
        actions.push(action);
        i = i + 1;
    }
    assert(actions@ + Seq::<Action>::empty() =~= actions@);
    actions
}

/// The command bytes that `actions` put on the link, in order.
pub fn transmitted_bytes(actions: &[Action]) -> (r: Vec<u8>)
    ensures
        r@ == transmitted(actions@),
{
    let mut bytes: Vec<u8> = Vec::new();
    let mut i: usize = 0;
    assert(actions@.take(0) =~= Seq::<Action>::empty());
    while i < actions.len()
        invariant
            i <= actions@.len(),
            bytes@ == transmitted(actions@.take(i as int)),
        decreases actions@.len() - i,
    {
        assert(actions@.take(i + 1).drop_last() =~= actions@.take(i as int));
        match actions[i] {
            Action::Send(command) => {
                let b = command.as_bytes();
                let mut j: usize = 0;
                let ghost start = bytes@;
                while j < b.len()
                    invariant
                        j <= b@.len(),
                        bytes@ == start + b@.take(j as int),
                    decreases b@.len() - j,
                {
                    assert(b@.take(j + 1) =~= b@.take(j as int).push(b@[j as int]));
                    bytes.push(b[j]);
                    j = j + 1;
                }
                assert(b@.take(j as int) =~= b@);
            },
            _ => {
                assert(bytes@ + Seq::<u8>::empty() =~= bytes@);
            },
        }
        i = i + 1;
    }
    assert(actions@.take(i as int) =~= actions@);
    bytes
}

/// A marker delivered byte by byte, from some point of it on, is matched on
/// its last byte.
pub proof fn lemma_marker_matches(pattern: Seq<u8>, i: int)
    requires
        0 <= i < pattern.len(),
    ensures
        wait_outcome(pattern, pattern.take(i), byte_events(pattern.skip(i))) == (
            WaitOutcome::Matched,
            (pattern.len() - i) as nat,
        ),
    decreases pattern.len() - i,
{
    let seen = pattern.take(i);
    let ev = byte_events(pattern.skip(i));
    let next = seen + seq![pattern[i]];
    assert(next =~= pattern.take(i + 1));
    assert(ev[0] == Event::Byte(pattern[i]));
    if i + 1 == pattern.len() {
        assert(next =~= pattern);
        assert(crate::matcher::occurs_at(next, pattern, pattern.len() as int));
    } else {
        assert(!contains(next, pattern));
        assert(ev.drop_first() =~= byte_events(pattern.skip(i + 1)));
        lemma_marker_matches(pattern, i + 1);
    }
}

/// The probe finds a device responsive when it answers with the help screen
/// at once, and not responsive, with no error, when it stays silent within
/// the bound.
pub proof fn lemma_probe(rest: Seq<Event>)
    ensures
        probe_verdict(
            wait_outcome(
                sequence_bytes(Sequence::HelpScreen),
                Seq::empty(),
                byte_events(sequence_bytes(Sequence::HelpScreen)),
            ).0,
        ) == Ok::<bool, DeviceError>(true),
        probe_verdict(
            wait_outcome(
                sequence_bytes(Sequence::HelpScreen),
                Seq::empty(),
                seq![Event::TimedOut] + rest,
            ).0,
        ) == Ok::<bool, DeviceError>(false),
{
    let help = sequence_bytes(Sequence::HelpScreen);
    reveal_strlit("Openrisc based virtual Prototype.\n");
    assert(help.len() > 0);
    lemma_marker_matches(help, 0);
    assert(help.take(0) =~= Seq::<u8>::empty());
    assert(help.skip(0) =~= help);
    crate::wait::lemma_silence_times_out(help, Seq::empty(), rest);
}

/// Two sessions opened alike and shown the same replies issue the same
/// actions, and so put the same bytes on the link.
pub proof fn lemma_replay_identical(wait_for_reset: bool, first: Seq<Event>, second: Seq<Event>)
    requires
        first == second,
    ensures
        run(initial(wait_for_reset), first) == run(initial(wait_for_reset), second),
        transmitted(run(initial(wait_for_reset), first)) == transmitted(
            run(initial(wait_for_reset), second),
        ),
{
}

} // verus!
