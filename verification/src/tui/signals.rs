//! What ends an optimization early: the user, or the clock. Times are in nanoseconds since some fixed instant.
use vstd::prelude::*;

verus! {

/// What the user has asked of the optimizer.
#[derive(Debug, PartialEq, Eq, Structural)]
pub struct TuiSignals {
    /// To stop for good.
    pub quit: bool,
    /// To end the current phase.
    pub interrupt_phase: bool,
}

impl TuiSignals {
    /// These signals, with a request to quit.
    pub open spec fn quitting(self) -> TuiSignals {
        TuiSignals { quit: true, ..self }
    }

    /// These signals, with a request to end the current phase.
    pub open spec fn interrupted(self) -> TuiSignals {
        TuiSignals { interrupt_phase: true, ..self }
    }

    /// These signals, at the start of a new phase.
    pub open spec fn renewed(self) -> TuiSignals {
        TuiSignals { interrupt_phase: false, ..self }
    }

    /// Nothing has been asked.
    pub fn new() -> (signals: TuiSignals)
        ensures
            signals == (TuiSignals { quit: false, interrupt_phase: false }),
    {
        TuiSignals { quit: false, interrupt_phase: false }
    }

    /// Asks the optimizer to stop for good.
    pub fn request_quit(&mut self)
        ensures
            *final(self) == old(self).quitting(),
            final(self).quit,
            final(self).interrupt_phase == old(self).interrupt_phase,
    {
        self.quit = true;
    }

    /// Asks the optimizer to end the current phase.
    pub fn interrupt_phase(&mut self)
        ensures
            *final(self) == old(self).interrupted(),
            final(self).interrupt_phase,
            final(self).quit == old(self).quit,
    {
        self.interrupt_phase = true;
    }
}

/// Tells the optimizer when to stop: it holds the end of the current time limit.
#[derive(Debug, PartialEq, Eq, Structural)]
pub struct TuiTerminator {
    pub timeout: Option<u128>,
}

impl TuiTerminator {
    /// The optimizer has to stop: the user has asked for it, or the time limit is over.
    pub open spec fn kills(self, signals: TuiSignals, now: u128) -> bool {
        ||| signals.quit
        ||| signals.interrupt_phase
        ||| self.timeout is Some && now > self.timeout->0
    }

    /// The terminator of a phase that begins now.
    pub open spec fn limited(now: u128, limit: u128) -> TuiTerminator {
        TuiTerminator { timeout: Some((now + limit) as u128) }
    }

    /// No time limit.
    pub fn new() -> (terminator: TuiTerminator)
        ensures
            terminator == (TuiTerminator { timeout: None }),
    {
        TuiTerminator { timeout: None }
    }

    /// Whether the optimizer has to stop.
    pub fn kill(&self, signals: &TuiSignals, now: u128) -> (stop: bool)
        ensures
            stop == self.kills(*signals, now),
            signals.quit || signals.interrupt_phase ==> stop,
            !signals.quit && !signals.interrupt_phase && self.timeout is None ==> !stop,
            !signals.quit && !signals.interrupt_phase && self.timeout is Some ==> stop == (now
                > self.timeout->0),
    {
        signals.quit || signals.interrupt_phase || match self.timeout {
            Some(timeout) => now > timeout,
            None => false,
        }
    }

    /// A new phase begins, with a time limit of its own: an earlier request to end a phase is spent.
    pub fn new_timeout(&mut self, signals: &mut TuiSignals, now: u128, limit: u128)
        requires
            now + limit <= u128::MAX,
        ensures
            *final(self) == TuiTerminator::limited(now, limit),
            *final(signals) == old(signals).renewed(),
            final(self).timeout is Some,
            final(self).timeout->0 == now + limit,
            !final(signals).interrupt_phase,
            final(signals).quit == old(signals).quit,
    {
        signals.interrupt_phase = false;
        self.timeout = Some(now + limit);
    }

    /// The end of the current time limit.
    pub fn timeout_at(&self) -> (timeout: Option<u128>)
        ensures
            timeout == self.timeout,
    {
        self.timeout
    }
}

/// A request to quit is never spent: it stops the optimizer at any time, under any time limit, also in the phases
/// that begin after it.
pub proof fn law_quit_is_final(signals: TuiSignals, terminator: TuiTerminator, now: u128)
    ensures
        terminator.kills(signals.quitting(), now),
        terminator.kills(signals.quitting().renewed(), now),
        terminator.kills(signals.quitting().renewed().interrupted().renewed(), now),
{
}

/// A request to end the phase ends the current one at once, and only that one: the phase that begins
/// next runs up to its time limit, unless the user asks again.
pub proof fn law_interrupt_ends_one_phase(
    signals: TuiSignals,
    terminator: TuiTerminator,
    now: u128,
    limit: u128,
    later: u128,
)
    requires
        now + limit <= u128::MAX,
    ensures
        terminator.kills(signals.interrupted(), now),
        !signals.quit ==> TuiTerminator::limited(now, limit).kills(
            signals.interrupted().renewed(),
            later,
        ) == (later > now + limit),
{
}

/// Each signal says what was asked and leaves the other one alone.
pub proof fn law_signals_are_independent(signals: TuiSignals)
    ensures
        signals.quitting().quit,
        signals.quitting().interrupt_phase == signals.interrupt_phase,
        signals.interrupted().interrupt_phase,
        signals.interrupted().quit == signals.quit,
        !signals.renewed().interrupt_phase,
        signals.renewed().quit == signals.quit,
{
}

/// The optimizer has to stop exactly if the user has asked for it or the end of a time limit is past. Without a limit the
/// clock never stops it; at the end of the limit it may still run; and once it has to stop it has to stop later too.
pub proof fn law_stops_for_the_user_or_the_clock(
    signals: TuiSignals,
    terminator: TuiTerminator,
    now: u128,
    later: u128,
    limit: u128,
)
    requires
        now <= later,
    ensures
        terminator.kills(signals, now) <==> signals.quit || signals.interrupt_phase || (
        terminator.timeout is Some && now > terminator.timeout->0),
        terminator.kills(signals, now) ==> terminator.kills(signals, later),
        now + limit <= u128::MAX && !signals.quit && !signals.interrupt_phase ==> (
        TuiTerminator::limited(now, limit).kills(signals, later) <==> later - now > limit),
{
}

} // verus!
