//! Waiting for a marker on a live link: each read either delivers a byte,
//! times out, finds the link closed, or fails.

use vstd::prelude::*;
use crate::matcher::{SequenceMatcher, contains, lemma_absorb_byte, lemma_occurrences_stable};

verus! {

/// What the link reports back after the driver asked it to act.
#[derive(Copy, Clone, Debug, PartialEq, Eq, Structural)]
pub enum Event {
    /// A write, a timeout change or an input-buffer clear completed.
    Done,
    /// One byte was read.
    Byte(u8),
    /// No byte arrived within the read timeout.
    TimedOut,
    /// The stream ended.
    Eof,
    /// Any other transport error.
    Failed,
    /// The payload was streamed; this many bytes were written.
    Streamed(u64),
}

/// How a wait for a marker ended.
#[derive(Copy, Clone, Debug, PartialEq, Eq, Structural)]
pub enum WaitOutcome {
    Matched,
    TimedOut,
    Eof,
    Failed,
}

/// The outcome of waiting for `pattern` on the reads `events`, after the
/// bytes `seen` (which do not hold it) were read, together with the number of
/// reads it takes. A script that runs out is a stream that ended.
pub open spec fn wait_outcome(pattern: Seq<u8>, seen: Seq<u8>, events: Seq<Event>) -> (WaitOutcome, nat)
    decreases events.len(),
{
    if events.len() == 0 {
        (WaitOutcome::Eof, 0)
    } else {
        match events[0] {
            Event::Byte(b) => if contains(seen + seq![b], pattern) {
                (WaitOutcome::Matched, 1)
            } else {
                let r = wait_outcome(pattern, seen + seq![b], events.drop_first());
                (r.0, r.1 + 1)
            },
            Event::TimedOut => (WaitOutcome::TimedOut, 1),
            Event::Eof => (WaitOutcome::Eof, 1),
            _ => (WaitOutcome::Failed, 1),
        }
    }
}

/// The reads that deliver `bytes`, one each.
pub open spec fn byte_events(bytes: Seq<u8>) -> Seq<Event> {
    bytes.map_values(|b: u8| Event::Byte(b))
}

/// Feeds one read to `matcher`; `None` means the marker is still awaited.
pub fn wait_step(matcher: &mut SequenceMatcher, event: Event) -> (r: Option<WaitOutcome>)
    requires
        old(matcher).wf(),
        !contains(old(matcher).seen(), old(matcher).pattern()),
    ensures
        final(matcher).wf(),
        final(matcher).pattern() == old(matcher).pattern(),
        match event {
            Event::Byte(b) => {
                &&& final(matcher).seen() == old(matcher).seen() + seq![b]
                &&& r == if contains(final(matcher).seen(), old(matcher).pattern()) {
                    Some(WaitOutcome::Matched)
                } else {
                    None::<WaitOutcome>
                }
            },
            Event::TimedOut => r == Some(WaitOutcome::TimedOut) && final(matcher).seen() == old(matcher).seen(),
            Event::Eof => r == Some(WaitOutcome::Eof) && final(matcher).seen() == old(matcher).seen(),
            _ => r == Some(WaitOutcome::Failed) && final(matcher).seen() == old(matcher).seen(),
        },
{
    match event {
        Event::Byte(b) => {
            proof {
                lemma_absorb_byte(matcher.pattern(), matcher.seen(), b);
            }
            if matcher.feed(b) {
                Some(WaitOutcome::Matched)
            } else {
                None
            }
        },
        Event::TimedOut => Some(WaitOutcome::TimedOut),
        Event::Eof => Some(WaitOutcome::Eof),
        _ => Some(WaitOutcome::Failed),
    }
}

/// Waits for `sequence` on the scripted reads `events`; returns how the wait
/// ended and how many reads it took.
pub fn await_sequence(sequence: &[u8], events: &[Event]) -> (r: (WaitOutcome, usize))
    requires
        sequence@.len() > 0,
    ensures
        (r.0, r.1 as nat) == wait_outcome(sequence@, Seq::empty(), events@),
{
    let mut matcher = SequenceMatcher::new(sequence);
    let mut i: usize = 0;
    assert(events@.skip(0) =~= events@);
    while i < events.len()
        invariant
            matcher.wf(),
            matcher.pattern() == sequence@,
            !contains(matcher.seen(), sequence@),
            i <= events@.len(),
            wait_outcome(sequence@, Seq::empty(), events@) == ({
                let w = wait_outcome(sequence@, matcher.seen(), events@.skip(i as int));
                (w.0, (w.1 + i) as nat)
            }),
        decreases events@.len() - i,
    {
        let ghost rest = events@.skip(i as int);
        assert(rest.drop_first() =~= events@.skip(i + 1));
        match wait_step(&mut matcher, events[i]) {
            Some(outcome) => {
                return (outcome, i + 1);
            },
            None => {},
        }
        i = i + 1;
    }
    (WaitOutcome::Eof, i)
}

/// A stream that ends before the marker is completed gives `Eof`, never a
/// match.
pub proof fn lemma_eof_before_marker(pattern: Seq<u8>, seen: Seq<u8>, bytes: Seq<u8>)
    requires
        !contains(seen + bytes, pattern),
    ensures
        wait_outcome(pattern, seen, byte_events(bytes)) == (WaitOutcome::Eof, bytes.len()),
    decreases bytes.len(),
{
    let ev = byte_events(bytes);
    if bytes.len() > 0 {
        let b = bytes[0];
        let rest = bytes.drop_first();
        assert(seen + bytes =~= (seen + seq![b]) + rest);
        assert(ev.drop_first() =~= byte_events(rest));
        lemma_occurrences_stable(seen + seq![b], rest, pattern);
        lemma_eof_before_marker(pattern, seen + seq![b], rest);
    }
}

/// A read that delivers nothing within the bound ends the wait with
/// `TimedOut`, which is neither `Eof` nor `Failed`.
pub proof fn lemma_silence_times_out(pattern: Seq<u8>, seen: Seq<u8>, rest: Seq<Event>)
    ensures
        wait_outcome(pattern, seen, seq![Event::TimedOut] + rest) == (WaitOutcome::TimedOut, 1nat),
        wait_outcome(pattern, seen, seq![Event::TimedOut] + rest).0 != WaitOutcome::Eof,
        wait_outcome(pattern, seen, seq![Event::TimedOut] + rest).0 != WaitOutcome::Failed,
{
    assert((seq![Event::TimedOut] + rest)[0] == Event::TimedOut);
}

} // verus!
