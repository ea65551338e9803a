//! Lifecycle tracker: one supervised session of the worker at a time.
//!
//! The supervisor is a state machine driven by the embedding application:
//! it accepts a launch request, classifies the spawn's outcome, folds the
//! diagnostic stream into `Line` events, and closes the session with exactly
//! one terminal event. The application performs the spawning, reading and
//! signalling; every decision, and the whole event bookkeeping, is here.

use vstd::prelude::*;
use crate::args;
use crate::events::{Event, LogEvent, is_terminal, terminal_count, lemma_terminal_count_concat};
use crate::relay;
use crate::relay::{lines_of, rest_of, relay_feed};
use crate::request::{RelayRequest, RequestError};

verus! {

/// Phase of the supervised session.
#[derive(Debug, Clone, Copy, PartialEq, Eq)]
pub enum Phase {
    /// No session has been launched yet.
    Idle,
    /// A launch was accepted; the spawn's outcome is not reported yet.
    Spawning,
    /// The worker runs and its diagnostic stream is being relayed.
    Running,
    /// The session ended with its terminal event.
    Done,
}

/// What the embedding application must do after a termination request.
#[derive(Debug, Clone, Copy, PartialEq, Eq)]
pub enum TerminationAction {
    /// Signal the worker to stop: first request while the worker runs.
    SignalWorker,
    /// Nothing to do: no worker runs, or the signal was already requested.
    NoAction,
}

/// The `Line` events carrying the given lines, in order.
pub open spec fn line_events(ls: Seq<Seq<u8>>) -> Seq<Event>
    decreases ls.len(),
{
    if ls.len() == 0 {
        Seq::empty()
    } else {
        seq![Event::Line(ls[0])] + line_events(ls.skip(1))
    }
}

/// `line_events` maps the lines one to one, in order.
pub proof fn lemma_line_events_shape(ls: Seq<Seq<u8>>)
    ensures
        line_events(ls).len() == ls.len(),
        forall|i: int| 0 <= i < ls.len() ==> line_events(ls)[i] == Event::Line(ls[i]),
    decreases ls.len(),
{
    if ls.len() > 0 {
        lemma_line_events_shape(ls.skip(1));
    }
}

/// `line_events` distributes over concatenation.
pub proof fn lemma_line_events_concat(a: Seq<Seq<u8>>, b: Seq<Seq<u8>>)
    ensures
        line_events(a + b) == line_events(a) + line_events(b),
    decreases a.len(),
{
    if a.len() == 0 {
        assert(a + b =~= b);
        assert(line_events(a) + line_events(b) =~= line_events(b));
    } else {
        assert((a + b).skip(1) =~= a.skip(1) + b);
        lemma_line_events_concat(a.skip(1), b);
        assert(seq![Event::Line(a[0])] + (line_events(a.skip(1)) + line_events(b)) =~= (seq![
            Event::Line(a[0]),
        ] + line_events(a.skip(1))) + line_events(b));
    }
}

/// No `Line` event is terminal.
pub proof fn lemma_line_events_no_terminal(ls: Seq<Seq<u8>>)
    ensures
        terminal_count(line_events(ls)) == 0,
    decreases ls.len(),
{
    if ls.len() == 0 {
    } else {
        lemma_line_events_no_terminal(ls.skip(1));
        let single = seq![Event::Line(ls[0])];
        lemma_terminal_count_concat(single, line_events(ls.skip(1)));
        assert(single.drop_last() =~= Seq::<Event>::empty());
        assert(terminal_count(Seq::<Event>::empty()) == 0);
        assert(single.last() == Event::Line(ls[0]));
        assert(terminal_count(single) == 0);
    }
}

/// The supervisor of one worker session.
pub struct Supervisor {
    /// Where the session stands.
    pub phase: Phase,
    /// The trailing partial line of the diagnostic stream, not yet emitted.
    pub pending: Vec<u8>,
    /// Whether termination of the worker was already requested.
    pub termination_requested: bool,
    /// Whether the diagnostic stream reached its end (or erred, which is
    /// treated as end of stream).
    pub stream_closed: bool,
    /// The events emitted for this session so far, oldest first.
    pub events: Ghost<Seq<Event>>,
    /// The bytes of the diagnostic stream fed so far this session.
    pub stream: Ghost<Seq<u8>>,
}

impl Supervisor {
    /// The events a running session has emitted: `Started`, then one `Line`
    /// per complete line of the stream, in byte order.
    pub open spec fn running_events(self) -> Seq<Event> {
        seq![Event::Started] + line_events(lines_of(self.stream@))
    }

    /// Session invariant: the emitted events are determined by the phase
    /// and the stream bytes; the pending buffer is the stream's trailing
    /// partial line until the stream closes.
    pub open spec fn wf(self) -> bool {
        match self.phase {
            Phase::Idle | Phase::Spawning => {
                &&& self.events@ == Seq::<Event>::empty()
                &&& self.stream@ == Seq::<u8>::empty()
                &&& self.pending@ == Seq::<u8>::empty()
                &&& !self.termination_requested
                &&& !self.stream_closed
            },
            Phase::Running => {
                &&& self.events@ == self.running_events()
                &&& (self.stream_closed ==> self.pending@ == Seq::<u8>::empty())
                &&& (!self.stream_closed ==> self.pending@ == rest_of(self.stream@))
            },
            Phase::Done => {
                &&& self.events@.len() > 0
                &&& is_terminal(self.events@.last())
                &&& (self.events@.last() is SpawnFailed ==> self.events@.len() == 1)
                &&& (self.events@.last() is Exited ==> self.events@ == self.running_events().push(
                    self.events@.last(),
                ))
            },
        }
    }

    /// A fresh supervisor with no session.
    pub fn new() -> (s: Supervisor)
        ensures
            s.wf(),
            s.phase is Idle,
            s.events@ == Seq::<Event>::empty(),
    {
        Supervisor {
            phase: Phase::Idle,
            pending: Vec::new(),
            termination_requested: false,
            stream_closed: false,
            events: Ghost(Seq::empty()),
            stream: Ghost(Seq::empty()),
        }
    }

    /// Accepts a supervision request: rejects it while a session is active
    /// (`AlreadyRunning`, the active session untouched) or when it names no
    /// destination (`InvalidRequest`); otherwise begins a fresh session and
    /// returns the argument vector the application must spawn the worker
    /// with.
    pub fn launch(&mut self, req: &RelayRequest) -> (r: Result<Vec<String>, RequestError>)
        requires
            old(self).wf(),
        ensures
            final(self).wf(),
            (old(self).phase is Spawning || old(self).phase is Running) ==> r
                == Result::<Vec<String>, RequestError>::Err(RequestError::AlreadyRunning)
                && *final(self) == *old(self),
            (old(self).phase is Idle || old(self).phase is Done) && !req.valid() ==> r
                == Result::<Vec<String>, RequestError>::Err(RequestError::InvalidRequest)
                && *final(self) == *old(self),
            (old(self).phase is Idle || old(self).phase is Done) && req.valid() ==> {
                &&& r matches Ok(v) && v.deep_view() == args::worker_args(
                    req.source@,
                    req.destinations.deep_view(),
                )
                &&& final(self).phase is Spawning
                &&& final(self).events@ == Seq::<Event>::empty()
            },
    {
        match self.phase {
            Phase::Spawning | Phase::Running => Err(RequestError::AlreadyRunning),
            Phase::Idle | Phase::Done => {
                match args::build(req) {
                    Err(e) => Err(e),
                    Ok(v) => {
                        self.phase = Phase::Spawning;
                        self.pending = Vec::new();
                        self.termination_requested = false;
                        self.stream_closed = false;
                        self.events = Ghost(Seq::empty());
                        self.stream = Ghost(Seq::empty());
                        Ok(v)
                    },
                }
            },
        }
    }

    /// Records a successful spawn: the session runs and its one `Started`
    /// event is emitted, before any other event of the session.
    pub fn spawn_succeeded(&mut self) -> (e: LogEvent)
        requires
            old(self).wf(),
            old(self).phase is Spawning,
        ensures
            final(self).wf(),
            final(self).phase is Running,
            e == LogEvent::Started,
            final(self).events@ == seq![Event::Started],
            final(self).stream@ == Seq::<u8>::empty(),
            !final(self).termination_requested,
            !final(self).stream_closed,
    {
        self.phase = Phase::Running;
        let ghost started: Seq<Event> = seq![Event::Started];
        self.events = Ghost(started);
        proof {
            assert(seq![Event::Started] + line_events(lines_of(self.stream@)) =~= seq![
                Event::Started,
            ]);
        }
        LogEvent::Started
    }

    /// Records a failed spawn: the session ends at once with its single
    /// terminal event, `SpawnFailed` with the reason.
    pub fn spawn_failed(&mut self, reason: String) -> (e: LogEvent)
        requires
            old(self).wf(),
            old(self).phase is Spawning,
        ensures
            final(self).wf(),
            final(self).phase is Done,
            e@ == Event::SpawnFailed(reason@),
            final(self).events@ == seq![Event::SpawnFailed(reason@)],
    {
        self.phase = Phase::Done;
        let ghost failed: Seq<Event> = seq![Event::SpawnFailed(reason@)];
        self.events = Ghost(failed);
        LogEvent::SpawnFailed(reason)
    }

    /// Folds one chunk of the diagnostic stream into the session: every
    /// line completed by the chunk becomes one `Line` event, in byte order;
    /// an unterminated trailing part stays pending.
    pub fn stream_chunk(&mut self, chunk: &[u8]) -> (new_events: Vec<LogEvent>)
        requires
            old(self).wf(),
            old(self).phase is Running,
            !old(self).stream_closed,
        ensures
            final(self).wf(),
            final(self).phase is Running,
            final(self).stream@ == old(self).stream@ + chunk@,
            final(self).events@ == old(self).events@ + new_events.deep_view(),
            new_events.deep_view() == line_events(
                relay_feed(Seq::empty(), old(self).pending@, chunk@).0,
            ),
            final(self).termination_requested == old(self).termination_requested,
            !final(self).stream_closed,
    {
        let ghost old_stream = self.stream@;
        let lines = relay::split_chunk(&mut self.pending, chunk);
        let ghost new_lines = relay_feed(Seq::empty(), old(self).pending@, chunk@).0;
        self.stream = Ghost(self.stream@ + chunk@);
        self.events = Ghost(self.events@ + line_events(new_lines));
        proof {
            relay::lemma_relay_feed_concat(Seq::empty(), Seq::empty(), old_stream, chunk@);
            relay::lemma_relay_feed_frame(lines_of(old_stream), rest_of(old_stream), chunk@);
            assert(lines_of(self.stream@) =~= lines_of(old_stream) + new_lines);
            lemma_line_events_concat(lines_of(old_stream), new_lines);
            assert(self.events@ =~= seq![Event::Started] + line_events(lines_of(self.stream@)));
        }
        let ghost lines_dv = lines.deep_view();
        let mut rest = lines;
        let mut out: Vec<LogEvent> = Vec::new();
        while rest.len() > 0
            invariant
                out.deep_view() + line_events(rest.deep_view()) == line_events(lines_dv),
            decreases rest.len(),
        {
            let ghost rest_dv = rest.deep_view();
            let ghost out_dv = out.deep_view();
            let first = rest.remove(0);
            proof {
                assert(rest.deep_view() =~= rest_dv.skip(1));
                assert(first.deep_view() =~= first@);
            }
            out.push(LogEvent::Line(first));
            proof {
                assert(out.deep_view() =~= out_dv.push(Event::Line(rest_dv[0])));
                assert(out.deep_view() + line_events(rest.deep_view()) =~= (out_dv + seq![
                    Event::Line(rest_dv[0]),
                ]) + line_events(rest_dv.skip(1)));
                assert((out_dv + seq![Event::Line(rest_dv[0])]) + line_events(rest_dv.skip(1))
                    =~= out_dv + (seq![Event::Line(rest_dv[0])] + line_events(rest_dv.skip(1))));
            }
        }
        proof {
            assert(line_events(rest.deep_view()) =~= Seq::<Event>::empty());
            assert(out.deep_view() =~= line_events(lines_dv));
        }
        out
    }

    /// Records the end (or read error, treated as end) of the diagnostic
    /// stream: no further `Line` event will be emitted, and the trailing
    /// partial line is discarded.
    pub fn stream_ended(&mut self)
        requires
            old(self).wf(),
            old(self).phase is Running,
        ensures
            final(self).wf(),
            final(self).phase is Running,
            final(self).events@ == old(self).events@,
            final(self).stream@ == old(self).stream@,
            final(self).stream_closed,
            final(self).termination_requested == old(self).termination_requested,
    {
        self.pending = Vec::new();
        self.stream_closed = true;
    }

    /// Records the worker's exit once the stream has closed: the session
    /// ends with its single terminal event, `Exited` with the status the
    /// worker exited with, after every `Line` event of the session.
    pub fn process_exited(&mut self, code: Option<i32>) -> (e: LogEvent)
        requires
            old(self).wf(),
            old(self).phase is Running,
            old(self).stream_closed,
        ensures
            final(self).wf(),
            final(self).phase is Done,
            e@ == Event::Exited(code),
            final(self).events@ == old(self).events@.push(Event::Exited(code)),
            final(self).stream@ == old(self).stream@,
    {
        self.phase = Phase::Done;
        self.events = Ghost(self.events@.push(Event::Exited(code)));
        LogEvent::Exited(code)
    }

    /// The state a termination request leaves the supervisor in: the first
    /// request while the worker runs marks termination as requested;
    /// anything else changes nothing.
    pub open spec fn after_termination_request(self) -> Supervisor {
        if self.phase is Running && !self.termination_requested {
            Supervisor { termination_requested: true, ..self }
        } else {
            self
        }
    }

    /// Requests termination of the worker. Only the first request while the
    /// worker runs asks the application to signal it; the request emits no
    /// event — the session still ends with its one `Exited` event when the
    /// worker's exit is observed.
    pub fn request_termination(&mut self) -> (action: TerminationAction)
        requires
            old(self).wf(),
        ensures
            final(self).wf(),
            *final(self) == old(self).after_termination_request(),
            action == (if old(self).phase is Running && !old(self).termination_requested {
                TerminationAction::SignalWorker
            } else {
                TerminationAction::NoAction
            }),
    {
        if matches!(self.phase, Phase::Running) && !self.termination_requested {
            self.termination_requested = true;
            TerminationAction::SignalWorker
        } else {
            TerminationAction::NoAction
        }
    }

    /// Law: exactly one `Started` event precedes every `Line` event of a
    /// session — a `Line` never comes first, and `Started` is never
    /// repeated.
    pub proof fn lemma_started_precedes_lines(self)
        requires
            self.wf(),
        ensures
            forall|i: int|
                0 <= i < self.events@.len() && (#[trigger] self.events@[i]) is Line ==> 0 < i
                    && self.events@[0] is Started,
            forall|i: int|
                0 < i < self.events@.len() ==> !((#[trigger] self.events@[i]) is Started),
    {
        let evs = self.events@;
        let lines = line_events(lines_of(self.stream@));
        lemma_line_events_shape(lines_of(self.stream@));
        assert forall|i: int| 0 < i < evs.len() implies !((#[trigger] evs[i]) is Started) by {
            match self.phase {
                Phase::Idle | Phase::Spawning => {
                },
                Phase::Running => {
                    assert(evs[i] == lines[i - 1]);
                },
                Phase::Done => {
                    if !(evs.last() is SpawnFailed) {
                        if i < evs.len() - 1 {
                            assert(evs[i] == (seq![Event::Started] + lines)[i]);
                            assert(evs[i] == lines[i - 1]);
                        }
                    }
                },
            }
        }
    }

    /// Law: while the session runs, what follows `Started` is exactly one
    /// `Line` event per complete line of the diagnostic stream, in the
    /// stream's byte order.
    pub proof fn lemma_lines_follow_stream(self)
        requires
            self.wf(),
            self.phase is Running,
        ensures
            self.events@.len() == 1 + lines_of(self.stream@).len(),
            self.events@[0] is Started,
            forall|i: int|
                0 <= i < lines_of(self.stream@).len() ==> self.events@[i + 1] == Event::Line(
                    #[trigger] lines_of(self.stream@)[i],
                ),
    {
        lemma_line_events_shape(lines_of(self.stream@));
    }

    /// Law: a session emits exactly one terminal event, as its last event,
    /// once it is done — and none before it is done.
    pub proof fn lemma_exactly_one_terminal(self)
        requires
            self.wf(),
        ensures
            self.phase is Done ==> terminal_count(self.events@) == 1 && is_terminal(
                self.events@.last(),
            ),
            !(self.phase is Done) ==> terminal_count(self.events@) == 0,
            forall|i: int| 0 <= i < self.events@.len() - 1 ==> !is_terminal(self.events@[i]),
    {
        let evs = self.events@;
        let lines = line_events(lines_of(self.stream@));
        lemma_line_events_shape(lines_of(self.stream@));
        lemma_line_events_no_terminal(lines_of(self.stream@));
        assert(terminal_count(Seq::<Event>::empty()) == 0);
        let started = seq![Event::Started];
        lemma_terminal_count_concat(started, lines);
        assert(started.drop_last() =~= Seq::<Event>::empty());
        assert(started.last() == Event::Started);
        assert(terminal_count(started) == 0);
        assert(terminal_count(started + lines) == 0);
        match self.phase {
            Phase::Idle | Phase::Spawning => {
                assert(terminal_count(evs) == 0);
            },
            Phase::Running => {
                assert(evs == started + lines);
                assert forall|i: int| 0 <= i < evs.len() - 1 implies !is_terminal(evs[i]) by {
                    if i > 0 {
                        assert(evs[i] == lines[i - 1]);
                    }
                }
            },
            Phase::Done => {
                let last = evs.last();
                if last is SpawnFailed {
                    assert(evs.drop_last() =~= Seq::<Event>::empty());
                    assert(terminal_count(evs) == 1);
                } else {
                    assert(evs == self.running_events().push(last));
                    assert(evs.drop_last() =~= started + lines);
                    assert(terminal_count(evs) == 1);
                    assert forall|i: int| 0 <= i < evs.len() - 1 implies !is_terminal(evs[i]) by {
                        assert(evs[i] == (started + lines)[i]);
                        if i > 0 {
                            assert(evs[i] == lines[i - 1]);
                        }
                    }
                }
            },
        }
    }

    /// Law: the `Line` events of a running session carry the stream's bytes
    /// exactly — each line is terminator-free, and the lines, a terminator
    /// after each, followed by the pending partial line, are the stream.
    pub proof fn lemma_stream_reconstructed(self)
        requires
            self.wf(),
            self.phase is Running,
            !self.stream_closed,
        ensures
            relay::rejoin(lines_of(self.stream@), self.pending@) == self.stream@,
            forall|i: int|
                0 <= i < lines_of(self.stream@).len() ==> relay::line_clean(
                    #[trigger] lines_of(self.stream@)[i],
                ),
    {
        relay::lemma_relay_rejoin(Seq::empty(), self.stream@);
        relay::lemma_lines_clean(Seq::empty(), Seq::empty(), self.stream@);
        assert(Seq::<u8>::empty() + self.stream@ =~= self.stream@);
    }

    /// Law: requesting termination twice leaves the supervisor exactly as
    /// one request does; no repetition of the request changes anything
    /// further, and no extra terminal event can come of it.
    pub proof fn lemma_termination_request_idempotent(self)
        ensures
            self.after_termination_request().after_termination_request()
                == self.after_termination_request(),
    {
    }
}

} // verus!
