//! Events a supervised session pushes to the event sink.

use vstd::prelude::*;

verus! {

/// Mathematical model of one event: line content as a byte sequence, the
/// spawn-failure reason as a character sequence, the exit code as the OS
/// reported it (`None` where the worker was ended by a signal).
#[verifier::ext_equal]
pub enum Event {
    Started,
    Line(Seq<u8>),
    Exited(Option<i32>),
    SpawnFailed(Seq<char>),
}

/// Executable event as handed to the event sink.
#[derive(Debug, PartialEq, Eq)]
pub enum LogEvent {
    Started,
    Line(Vec<u8>),
    Exited(Option<i32>),
    SpawnFailed(String),
}

impl View for LogEvent {
    type V = Event;

    open spec fn view(&self) -> Event {
        match self {
            LogEvent::Started => Event::Started,
            LogEvent::Line(text) => Event::Line(text@),
            LogEvent::Exited(code) => Event::Exited(*code),
            LogEvent::SpawnFailed(reason) => Event::SpawnFailed(reason@),
        }
    }
}

impl DeepView for LogEvent {
    type V = Event;

    open spec fn deep_view(&self) -> Event {
        self.view()
    }
}

/// A terminal event ends the session; there is exactly one per session.
pub open spec fn is_terminal(e: Event) -> bool {
    e is Exited || e is SpawnFailed
}

/// How many terminal events a sequence of events holds.
pub open spec fn terminal_count(es: Seq<Event>) -> nat
    decreases es.len(),
{
    if es.len() == 0 {
        0
    } else {
        terminal_count(es.drop_last()) + if is_terminal(es.last()) {
            1nat
        } else {
            0nat
        }
    }
}

/// Terminal events are counted piecewise over a concatenation.
pub proof fn lemma_terminal_count_concat(a: Seq<Event>, b: Seq<Event>)
    ensures
        terminal_count(a + b) == terminal_count(a) + terminal_count(b),
    decreases b.len(),
{
    if b.len() == 0 {
        assert(a + b =~= a);
    } else {
        lemma_terminal_count_concat(a, b.drop_last());
        assert((a + b).drop_last() =~= a + b.drop_last());
        assert((a + b).last() == b.last());
    }
}

} // verus!
