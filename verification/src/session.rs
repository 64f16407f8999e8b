//! The exporter's lifetime as a state machine: startup decisions, the
//! auth verdict, one decision per poll tick, and shutdown.
//!
//! The loop around it performs the outside work — sockets, sleeping,
//! signals, the metrics listener — and hands each result back as an
//! [`Event`]; the machine decides the next state and what to do, and owns
//! the stale-but-available policy: the exported gauge keeps the most
//! recent successfully parsed count across any failure.

use vstd::prelude::*;

verus! {

use crate::parse::{extract_count, spec_extract};

/// Exit code of a graceful shutdown.
pub const EXIT_OK: u8 = 0;

/// Exit code of a startup fault: bad arguments, a missing password, or a
/// connection that could not be set up.
pub const EXIT_STARTUP: u8 = 1;

/// Exit code when the server rejects the credentials.
pub const EXIT_AUTH_REJECTED: u8 = 2;

/// A fatal fault in the two password flags.
#[derive(Clone, Copy, Debug, PartialEq, Eq, Structural)]
pub enum StartupError {
    /// Both an inline password and a password file were supplied.
    BothPasswordSources,
    /// Neither an inline password nor a password file was supplied.
    NoPasswordSource,
}

/// Where the password comes from.
#[derive(Debug)]
pub enum PasswordSource {
    /// The flag carried the password itself.
    Inline(String),
    /// The flag named a file whose contents are the password.
    FromFile(String),
}

/// Decides the password source from the two optional flags: exactly one
/// of them must be supplied; both or neither is a startup error.
pub fn choose_password_source(inline: Option<String>, file: Option<String>) -> (r: Result<
    PasswordSource,
    StartupError,
>)
    ensures
        match r {
            Ok(src) => match src {
                PasswordSource::Inline(p) => inline == Some(p) && file is None,
                PasswordSource::FromFile(f) => inline is None && file == Some(f),
            },
            Err(e) => match e {
                StartupError::BothPasswordSources => inline is Some && file is Some,
                StartupError::NoPasswordSource => inline is None && file is None,
            },
        },
{
    match (inline, file) {
        (Some(_), Some(_)) => Err(StartupError::BothPasswordSources),
        (Some(p), None) => Ok(PasswordSource::Inline(p)),
        (None, Some(f)) => Ok(PasswordSource::FromFile(f)),
        (None, None) => Err(StartupError::NoPasswordSource),
    }
}

/// Exit code of a startup fault: every argument-validation failure exits
/// with [`EXIT_STARTUP`].
pub fn startup_exit_code(e: &StartupError) -> (c: u8)
    ensures
        c == EXIT_STARTUP,
{
    match e {
        StartupError::BothPasswordSources => EXIT_STARTUP,
        StartupError::NoPasswordSource => EXIT_STARTUP,
    }
}

/// Observable phases of the exporter's lifetime.
#[derive(Clone, Copy, Debug, PartialEq, Eq, Structural)]
pub enum Phase {
    /// Connected; the auth verdict is outstanding.
    AwaitingAuth,
    /// Authenticated; a tick runs every poll period.
    Polling,
    /// The process is done and exits with this code.
    Finished(u8),
}

/// Everything the poll loop decides over: the phase, and the exported
/// gauge's state — unset until the first successfully parsed count, then
/// always the most recent one.
pub struct Session {
    pub phase: Phase,
    pub gauge: Option<i64>,
}

/// What the outside world hands the session.
#[derive(Debug)]
pub enum Event {
    /// The server accepted authentication.
    AuthAccepted,
    /// The server rejected the credentials.
    AuthRejected,
    /// The transport failed during the auth handshake.
    AuthFailed,
    /// A tick's command exchange returned this reply body.
    Reply(Vec<u8>),
    /// A tick's command exchange failed, in transport or framing.
    TickFailed,
    /// A termination signal arrived.
    ShutdownRequested,
}

/// What the driver must do after a step.
#[derive(Clone, Copy, Debug, PartialEq, Eq, Structural)]
pub enum Action {
    /// Nothing; sleep until the next event.
    Idle,
    /// Write this count to the exported gauge.
    SetGauge(i64),
    /// Exit the process with this code.
    Exit(u8),
}

/// The session before the auth verdict, with the gauge unset.
pub open spec fn spec_init() -> Session {
    Session { phase: Phase::AwaitingAuth, gauge: None }
}

/// The transition function: next session and required action, per phase
/// and event. A finished session absorbs every event; a polling session
/// updates the gauge exactly on a reply that parses to a count.
pub open spec fn spec_step(s: Session, e: Event) -> (Session, Action) {
    match s.phase {
        Phase::Finished(_) => (s, Action::Idle),
        Phase::AwaitingAuth => match e {
            Event::AuthAccepted => (Session { phase: Phase::Polling, gauge: s.gauge }, Action::Idle),
            Event::AuthRejected => (
                Session { phase: Phase::Finished(EXIT_AUTH_REJECTED), gauge: s.gauge },
                Action::Exit(EXIT_AUTH_REJECTED),
            ),
            Event::AuthFailed => (
                Session { phase: Phase::Finished(EXIT_STARTUP), gauge: s.gauge },
                Action::Exit(EXIT_STARTUP),
            ),
            Event::ShutdownRequested => (
                Session { phase: Phase::Finished(EXIT_OK), gauge: s.gauge },
                Action::Exit(EXIT_OK),
            ),
            _ => (s, Action::Idle),
        },
        Phase::Polling => match e {
            Event::Reply(body) => match spec_extract(body@) {
                Some(n) => (
                    Session { phase: s.phase, gauge: Some(n) },
                    Action::SetGauge(n),
                ),
                None => (s, Action::Idle),
            },
            Event::TickFailed => (s, Action::Idle),
            Event::ShutdownRequested => (
                Session { phase: Phase::Finished(EXIT_OK), gauge: s.gauge },
                Action::Exit(EXIT_OK),
            ),
            _ => (s, Action::Idle),
        },
    }
}

impl Session {
    /// The session as the process starts polling for its auth verdict.
    pub fn new() -> (s: Session)
        ensures
            s == spec_init(),
    {
        Session { phase: Phase::AwaitingAuth, gauge: None }
    }

    /// Advances the session by one event and says what the driver must
    /// do, exactly as [`spec_step`] states.
    pub fn step(&mut self, e: Event) -> (a: Action)
        ensures
            *final(self) == spec_step(*old(self), e).0,
            a == spec_step(*old(self), e).1,
    {
        match self.phase {
            Phase::Finished(_) => Action::Idle,
            Phase::AwaitingAuth => match e {
                Event::AuthAccepted => {
                    self.phase = Phase::Polling;
                    Action::Idle
                },
                Event::AuthRejected => {
                    self.phase = Phase::Finished(EXIT_AUTH_REJECTED);
                    Action::Exit(EXIT_AUTH_REJECTED)
                },
                Event::AuthFailed => {
                    self.phase = Phase::Finished(EXIT_STARTUP);
                    Action::Exit(EXIT_STARTUP)
                },
                Event::ShutdownRequested => {
                    self.phase = Phase::Finished(EXIT_OK);
                    Action::Exit(EXIT_OK)
                },
                _ => Action::Idle,
            },
            Phase::Polling => match e {
                Event::Reply(body) => match extract_count(body.as_slice()) {
                    Some(n) => {
                        self.gauge = Some(n);
                        Action::SetGauge(n)
                    },
                    None => Action::Idle,
                },
                Event::TickFailed => Action::Idle,
                Event::ShutdownRequested => {
                    self.phase = Phase::Finished(EXIT_OK);
                    Action::Exit(EXIT_OK)
                },
                _ => Action::Idle,
            },
        }
    }
}

/// The session after a whole run of events.
pub open spec fn spec_run(s: Session, evs: Seq<Event>) -> Session
    decreases evs.len(),
{
    if evs.len() == 0 {
        s
    } else {
        spec_run(spec_step(s, evs[0]).0, evs.skip(1))
    }
}

/// Law: a finished session never changes again — no later event moves it
/// or touches the gauge.
pub proof fn lemma_finished_absorbs(s: Session, evs: Seq<Event>)
    requires
        s.phase is Finished,
    ensures
        spec_run(s, evs) == s,
    decreases evs.len(),
{
    if evs.len() > 0 {
        lemma_finished_absorbs(s, evs.skip(1));
    }
}

/// Law: no step clears or corrupts the gauge. Each step either leaves it
/// unchanged or sets it to the count parsed from that step's reply.
pub proof fn lemma_gauge_only_set_by_parse(s: Session, e: Event)
    ensures
        ({
            let s2 = spec_step(s, e).0;
            s2.gauge == s.gauge || (e is Reply && s2.gauge is Some && s2.gauge == spec_extract(
                e->Reply_0@,
            ))
        }),
{
}

/// Law: stale-but-available. After a tick's reply parses to `n`, a failed
/// next tick — transport or framing failure, or a reply that does not
/// parse — leaves the exported gauge at `n`.
pub proof fn lemma_stale_value(s: Session, body: Vec<u8>, n: i64, e: Event)
    requires
        s.phase == Phase::Polling,
        spec_extract(body@) == Some(n),
        e is TickFailed || (e is Reply && spec_extract(e->Reply_0@) is None),
    ensures
        spec_step(s, Event::Reply(body)).0.gauge == Some(n),
        spec_step(spec_step(s, Event::Reply(body)).0, e).0.gauge == Some(n),
{
}

/// Law: a rejected authentication finishes the session with exit code 2,
/// and the gauge is never set, whatever happens afterwards.
pub proof fn lemma_auth_rejected_never_sets_gauge(evs: Seq<Event>)
    ensures
        spec_step(spec_init(), Event::AuthRejected).0.phase == Phase::Finished(EXIT_AUTH_REJECTED),
        spec_step(spec_init(), Event::AuthRejected).1 == Action::Exit(EXIT_AUTH_REJECTED),
        spec_run(spec_step(spec_init(), Event::AuthRejected).0, evs).gauge is None,
{
    lemma_finished_absorbs(spec_step(spec_init(), Event::AuthRejected).0, evs);
}

} // verus!
