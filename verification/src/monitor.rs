//! The lid monitor: the steps of the loop that watches the lid and the outputs.
//! Times are in milliseconds.
use vstd::prelude::*;

use crate::lid;
use crate::lid::{
    DisplayTopology, Switch, FIRST_RETRY_DELAY, OPEN_DEBOUNCE, OPEN_RETRY_DELAY, POLL_INTERVAL,
    SECOND_RETRY_DELAY, UNDOCKED_RECOVERY_INTERVAL,
};

verus! {

/// The lid and the outputs at one look.
#[derive(Debug, Clone, Copy, PartialEq, Eq, Structural)]
pub struct Look {
    pub closed: bool,
    pub topology: DisplayTopology,
}

/// What the monitor waits for.
#[derive(Debug, Clone, Copy, PartialEq, Eq, Structural)]
pub enum Phase {
    /// A look at the lid and the outputs.
    Looking,
    /// A switch for the lid to be carried out.
    Applying { look: Look, switch: Switch },
    /// The panel to reconnect after the lid opened; `again` the second time.
    Reconnecting { look: Look, again: bool },
    /// The outputs to be looked at after the lid opened.
    Measuring { look: Look, again: bool },
    /// A switch for the opened lid to be carried out.
    Reopening { look: Look, again: bool, switch: Switch },
    /// The recovery of the internal panel to be carried out; `changed` if the
    /// outputs had changed.
    Recovering { look: Look, changed: bool },
    /// A switch for changed outputs to be carried out.
    Settling { look: Look, switch: Switch },
    /// The next look to be due.
    Resting,
}

/// What is to be done next.
#[derive(Debug, Clone, Copy, PartialEq, Eq, Structural)]
pub enum Action {
    /// Look at the lid and the outputs.
    Look,
    /// Look at the outputs.
    Measure,
    /// Wait for some time.
    Sleep(u64),
    /// Carry out a switch.
    Switch(Switch),
}

/// What was done.
#[derive(Debug, Clone, Copy, PartialEq, Eq, Structural)]
pub enum Event {
    /// The lid and the outputs were looked at.
    Looked { look: Look, now: u64 },
    /// The outputs were looked at.
    Measured { topology: DisplayTopology },
    /// The time is over.
    Slept,
    /// The switch was carried out.
    Switched { now: u64 },
}

/// The state of the lid monitor.
#[derive(Debug, Clone, Copy)]
pub struct Monitor {
    /// The look before the current one.
    pub before: Option<Look>,
    /// When the internal panel was last recovered.
    pub last_recovery: u64,
    /// The retry under way, and when it is due: `false` for the first.
    pub retry: Option<(bool, u64)>,
    /// What the monitor waits for.
    pub phase: Phase,
}

impl Monitor {
    /// What the monitor waits for.
    pub open spec fn awaited(self) -> Action {
        match self.phase {
            Phase::Looking => Action::Look,
            Phase::Applying { look, switch } => Action::Switch(switch),
            Phase::Reconnecting { look, again } => Action::Sleep(
                if again {
                    OPEN_RETRY_DELAY
                } else {
                    OPEN_DEBOUNCE
                },
            ),
            Phase::Measuring { look, again } => Action::Measure,
            Phase::Reopening { look, again, switch } => Action::Switch(switch),
            Phase::Recovering { look, changed } => Action::Switch(Switch::Undocked),
            Phase::Settling { look, switch } => Action::Switch(switch),
            Phase::Resting => Action::Sleep(POLL_INTERVAL),
        }
    }

    /// The monitor in another phase.
    pub open spec fn waiting(self, phase: Phase) -> Monitor {
        Monitor { phase, ..self }
    }

    /// The monitor without a retry under way.
    pub open spec fn without_retry(self) -> Monitor {
        Monitor { retry: None, ..self }
    }

    /// Whether the outputs differ from those of the look before.
    pub open spec fn changed(self, look: Look) -> bool {
        match self.before {
            Some(before) => before.topology != look.topology,
            None => true,
        }
    }

    /// Whether the internal panel is due for its regular recovery.
    pub open spec fn recovery_due(self, now: u64) -> bool {
        now - self.last_recovery >= UNDOCKED_RECOVERY_INTERVAL
    }

    /// Whether the retry under way is due.
    pub open spec fn retry_due(self, now: u64) -> bool {
        match self.retry {
            Some(retry) => now >= retry.1,
            None => false,
        }
    }

    /// The look is over: it is kept, and the monitor rests.
    pub open spec fn rested(self, look: Look) -> Monitor {
        Monitor { before: Some(look), phase: Phase::Resting, ..self }
    }

    /// What is done about the outputs, after the lid was dealt with. With the lid
    /// open, the internal panel is recovered when it is the only output and that
    /// is due, and the profile for an open lid is switched to when an external
    /// output came. With the lid closed, changed outputs are switched for anew.
    /// The first look does neither.
    pub open spec fn outputs_handled(self, look: Look, now: u64) -> Monitor {
        let changed = self.changed(look);
        if self.before is None {
            self.without_retry().rested(look)
        } else if look.closed {
            if changed {
                self.without_retry().waiting(
                    Phase::Settling { look, switch: lid::closed_switch(look.topology) },
                )
            } else {
                self.without_retry().rested(look)
            }
        } else if lid::undocked(look.topology) {
            if changed || self.retry_due(now) || self.recovery_due(now) {
                self.waiting(Phase::Recovering { look, changed })
            } else {
                self.rested(look)
            }
        } else if changed && look.topology.external_connected {
            self.without_retry().waiting(Phase::Settling { look, switch: Switch::Open })
        } else {
            self.without_retry().rested(look)
        }
    }

    /// What is done after a look: at first whatever fits, later what a change of
    /// the lid calls for.
    pub open spec fn looked(self, look: Look, now: u64) -> Monitor {
        match self.before {
            None => self.waiting(
                Phase::Applying { look, switch: lid::current_switch(look.closed, look.topology) },
            ),
            Some(before) => if look.closed == before.closed {
                self.outputs_handled(look, now)
            } else if look.closed {
                self.waiting(Phase::Applying { look, switch: lid::closed_switch(look.topology) })
            } else {
                self.waiting(Phase::Reconnecting { look, again: false })
            },
        }
    }

    /// The retry that follows a recovery: two of them after the outputs changed.
    pub open spec fn next_retry(self, changed: bool, now: u64) -> Option<(bool, u64)> {
        if changed {
            Some((false, (now + FIRST_RETRY_DELAY) as u64))
        } else {
            match self.retry {
                Some(retry) => if retry.0 {
                    None
                } else {
                    Some((true, (now + SECOND_RETRY_DELAY) as u64))
                },
                None => None,
            }
        }
    }

    /// The internal panel was recovered.
    pub open spec fn recovered(self, look: Look, changed: bool, now: u64) -> Monitor {
        Monitor { last_recovery: now, retry: self.next_retry(changed, now), ..self }.rested(look)
    }

    /// The monitor after an event; one that it does not wait for changes nothing.
    pub open spec fn stepped(self, event: Event) -> Monitor {
        match (self.phase, event) {
            (Phase::Looking, Event::Looked { look, now }) => self.looked(look, now),
            (Phase::Applying { look, switch }, Event::Switched { now }) => self.outputs_handled(
                look,
                now,
            ),
            (Phase::Reconnecting { look, again }, Event::Slept) => self.waiting(
                Phase::Measuring { look, again },
            ),
            (Phase::Measuring { look, again }, Event::Measured { topology }) => self.waiting(
                Phase::Reopening { look, again, switch: lid::open_switch(topology) },
            ),
            (Phase::Reopening { look, again, switch }, Event::Switched { now }) => if again {
                Monitor { last_recovery: now, ..self }.outputs_handled(look, now)
            } else {
                self.waiting(Phase::Reconnecting { look, again: true })
            },
            (Phase::Recovering { look, changed }, Event::Switched { now }) => self.recovered(
                look,
                changed,
                now,
            ),
            (Phase::Settling { look, switch }, Event::Switched { now }) => self.rested(look),
            (Phase::Resting, Event::Slept) => self.waiting(Phase::Looking),
            _ => self,
        }
    }

    /// A monitor that has not looked yet. The first recovery is due at once,
    /// where the clock allows it.
    pub fn new(now: u64) -> (r: Monitor)
        ensures
            r == (Monitor {
                before: None,
                last_recovery: if now >= UNDOCKED_RECOVERY_INTERVAL {
                    (now - UNDOCKED_RECOVERY_INTERVAL) as u64
                } else {
                    now
                },
                retry: None,
                phase: Phase::Looking,
            }),
            r.awaited() == Action::Look,
            now >= 30_000 ==> now - r.last_recovery == 30_000,
    {
        Monitor {
            before: None,
            last_recovery: if now >= UNDOCKED_RECOVERY_INTERVAL {
                now - UNDOCKED_RECOVERY_INTERVAL
            } else {
                now
            },
            retry: None,
            phase: Phase::Looking,
        }
    }

    /// What is to be done next.
    pub fn action(&self) -> (r: Action)
        ensures
            r == self.awaited(),
    {
        match self.phase {
            Phase::Looking => Action::Look,
            Phase::Applying { look: _, switch } => Action::Switch(switch),
            Phase::Reconnecting { look: _, again } => Action::Sleep(
                if again {
                    OPEN_RETRY_DELAY
                } else {
                    OPEN_DEBOUNCE
                },
            ),
            Phase::Measuring { look: _, again: _ } => Action::Measure,
            Phase::Reopening { look: _, again: _, switch } => Action::Switch(switch),
            Phase::Recovering { look: _, changed: _ } => Action::Switch(Switch::Undocked),
            Phase::Settling { look: _, switch } => Action::Switch(switch),
            Phase::Resting => Action::Sleep(POLL_INTERVAL),
        }
    }

    /// Keep the look and rest.
    fn rest(&mut self, look: Look)
        ensures
            *final(self) == old(self).rested(look),
    {
        self.before = Some(look);
        self.phase = Phase::Resting;
    }

    /// Deal with the outputs.
    fn handle_outputs(&mut self, look: Look, now: u64)
        ensures
            *final(self) == old(self).outputs_handled(look, now),
    {
        let changed: bool = match self.before {
            Some(before) => before.topology != look.topology,
            None => true,
        };
        let recovery_due: bool = now >= self.last_recovery && now - self.last_recovery
            >= UNDOCKED_RECOVERY_INTERVAL;
        let retry_due: bool = match self.retry {
            Some((_, due)) => now >= due,
            None => false,
        };
        let initial: bool = self.before.is_none();
        if !look.closed && !initial {
            if lid::should_recover_undocked(
                look.closed,
                look.topology,
                changed,
                retry_due,
                recovery_due,
            ) {
                self.phase = Phase::Recovering { look, changed };
            } else if changed && look.topology.external_connected {
                self.retry = None;
                self.phase = Phase::Settling { look, switch: Switch::Open };
            } else {
                if !look.topology.internal_connected || look.topology.external_connected {
                    self.retry = None;
                }
                self.rest(look);
            }
        } else if !initial && changed {
            self.retry = None;
            self.phase = Phase::Settling { look, switch: lid::apply_closed_profile(look.topology) };
        } else {
            self.retry = None;
            self.rest(look);
        }
    }

    /// Deal with the lid.
    fn handle_look(&mut self, look: Look, now: u64)
        ensures
            *final(self) == old(self).looked(look, now),
    {
        match self.before {
            None => {
                let switch = lid::apply_current_profile(look.closed, look.topology);
                self.phase = Phase::Applying { look, switch };
            },
            Some(before) => {
                if look.closed == before.closed {
                    self.handle_outputs(look, now);
                } else if look.closed {
                    let switch = lid::apply_closed_profile(look.topology);
                    self.phase = Phase::Applying { look, switch };
                } else {
                    self.phase = Phase::Reconnecting { look, again: false };
                }
            },
        }
    }

    /// Take note of a recovery of the internal panel.
    fn note_recovery(&mut self, look: Look, changed: bool, now: u64)
        requires
            now + SECOND_RETRY_DELAY <= u64::MAX,
        ensures
            *final(self) == old(self).recovered(look, changed, now),
    {
        self.last_recovery = now;
        self.retry = if changed {
            Some((false, now + FIRST_RETRY_DELAY))
        } else {
            match self.retry {
                Some((second, _)) => if second {
                    None
                } else {
                    Some((true, now + SECOND_RETRY_DELAY))
                },
                None => None,
            }
        };
        self.rest(look);
    }

    /// Take note of what was done. What is to be done next is then [`action`].
    ///
    /// [`action`]: Monitor::action
    pub fn step(&mut self, event: Event)
        requires
            event matches Event::Switched { now } ==> now + SECOND_RETRY_DELAY <= u64::MAX,
        ensures
            *final(self) == old(self).stepped(event),
    {
        match (self.phase, event) {
            (Phase::Looking, Event::Looked { look, now }) => self.handle_look(look, now),
            (
                Phase::Applying { look, switch: _ },
                Event::Switched { now },
            ) => self.handle_outputs(look, now),
            (Phase::Reconnecting { look, again }, Event::Slept) => {
                self.phase = Phase::Measuring { look, again };
            },
            (Phase::Measuring { look, again }, Event::Measured { topology }) => {
                let switch = lid::recover_open_outputs(topology);
                self.phase = Phase::Reopening { look, again, switch };
            },
            (Phase::Reopening { look, again, switch: _ }, Event::Switched { now }) => {
                if again {
                    self.last_recovery = now;
                    self.handle_outputs(look, now);
                } else {
                    self.phase = Phase::Reconnecting { look, again: true };
                }
            },
            (
                Phase::Recovering { look, changed },
                Event::Switched { now },
            ) => self.note_recovery(look, changed, now),
            (Phase::Settling { look, switch: _ }, Event::Switched { now: _ }) => self.rest(look),
            (Phase::Resting, Event::Slept) => {
                self.phase = Phase::Looking;
            },
            _ => {},
        }
    }
}

/// The look that a monitor is dealing with, if any.
pub open spec fn current_look(phase: Phase) -> Option<Look> {
    match phase {
        Phase::Looking => None,
        Phase::Applying { look, switch } => Some(look),
        Phase::Reconnecting { look, again } => Some(look),
        Phase::Measuring { look, again } => Some(look),
        Phase::Reopening { look, again, switch } => Some(look),
        Phase::Recovering { look, changed } => Some(look),
        Phase::Settling { look, switch } => Some(look),
        Phase::Resting => None,
    }
}

/// Whether a monitor is about to switch to the profile for a closed lid only
/// with the lid closed and an external output connected.
pub open spec fn never_strands(m: Monitor) -> bool {
    m.awaited() == Action::Switch(Switch::Close) ==> {
        &&& current_look(m.phase) is Some
        &&& current_look(m.phase)->0.closed
        &&& current_look(m.phase)->0.topology.external_connected
    }
}

/// The profile for a closed lid is switched to only with the lid closed and an
/// external output connected, so that a session is never left without a screen:
/// every step keeps this.
pub proof fn closed_lid_keeps_a_screen(m: Monitor, event: Event)
    requires
        never_strands(m),
    ensures
        never_strands(m.stepped(event)),
{
}

/// After the outputs changed to the internal panel alone, with the lid open, it
/// is recovered at once, again after the first retry delay, and again after the
/// second; then only at the regular interval.
pub proof fn lost_dock_is_retried_twice(m: Monitor, look: Look, now: u64, at: u64)
    requires
        m.before is Some,
        !look.closed,
        lid::undocked(look.topology),
        m.before->0.topology != look.topology,
        at + SECOND_RETRY_DELAY <= u64::MAX,
    ensures
        m.outputs_handled(look, now).awaited() == Action::Switch(Switch::Undocked),
        ({
            let first = m.outputs_handled(look, now).stepped(Event::Switched { now: at });
            &&& first.retry == Some((false, (at + FIRST_RETRY_DELAY) as u64))
            &&& first.last_recovery == at
            &&& forall|t: u64|
                #![trigger first.outputs_handled(look, t)]
                at <= t < at + FIRST_RETRY_DELAY ==> first.outputs_handled(look, t).phase is Resting
            &&& forall|t: u64|
                #![trigger first.outputs_handled(look, t)]
                at + FIRST_RETRY_DELAY <= t ==> first.outputs_handled(look, t).phase
                    == (Phase::Recovering { look, changed: false })
        }),
        ({
            let first = m.outputs_handled(look, now).stepped(Event::Switched { now: at });
            let second = first.recovered(look, false, at);
            let third = second.recovered(look, false, at);
            &&& second.retry == Some((true, (at + SECOND_RETRY_DELAY) as u64))
            &&& third.retry is None
            &&& forall|t: u64|
                #![trigger third.outputs_handled(look, t)]
                at <= t ==> (third.outputs_handled(look, t).phase is Recovering <==> t - at
                    >= UNDOCKED_RECOVERY_INTERVAL)
        }),
{
}

/// An opened lid is switched for twice, with the outputs looked at anew each
/// time, before the outputs are dealt with.
pub proof fn opened_lid_is_switched_for_twice(
    m: Monitor,
    look: Look,
    now: u64,
    t1: DisplayTopology,
    t2: DisplayTopology,
    at: u64,
)
    requires
        m.phase is Looking,
        m.before matches Some(before) && before.closed,
        !look.closed,
    ensures
        ({
            let m1 = m.stepped(Event::Looked { look, now });
            let m2 = m1.stepped(Event::Slept);
            let m3 = m2.stepped(Event::Measured { topology: t1 });
            let m4 = m3.stepped(Event::Switched { now });
            let m5 = m4.stepped(Event::Slept);
            let m6 = m5.stepped(Event::Measured { topology: t2 });
            let m7 = m6.stepped(Event::Switched { now: at });
            &&& m1.awaited() == Action::Sleep(OPEN_DEBOUNCE)
            &&& m2.awaited() == Action::Measure
            &&& m3.awaited() == Action::Switch(lid::open_switch(t1))
            &&& m4.awaited() == Action::Sleep(OPEN_RETRY_DELAY)
            &&& m5.awaited() == Action::Measure
            &&& m6.awaited() == Action::Switch(lid::open_switch(t2))
            &&& m7 == Monitor { last_recovery: at, ..m }.outputs_handled(look, at)
        }),
{
}

/// The monitor looks twice a second. After the lid opened it waits a second and
/// a half before the outputs are looked at, and two seconds before they are
/// looked at again.
pub proof fn monitor_waits_its_time(m: Monitor, look: Look)
    ensures
        m.rested(look).awaited() == Action::Sleep(500),
        m.waiting(Phase::Reconnecting { look, again: false }).awaited() == Action::Sleep(1_500),
        m.waiting(Phase::Reconnecting { look, again: true }).awaited() == Action::Sleep(2_000),
{
}

/// The first look is answered by the switch that fits the lid and the outputs;
/// then the look is kept and the monitor rests. Nothing is retried.
pub proof fn first_look_is_switched_for(m: Monitor, look: Look, now: u64, at: u64)
    requires
        m.phase is Looking,
        m.before is None,
    ensures
        ({
            let applying = m.stepped(Event::Looked { look, now });
            let rested = applying.stepped(Event::Switched { now: at });
            let again = rested.stepped(Event::Slept);
            &&& look.closed && look.topology.external_connected ==> applying.awaited()
                == Action::Switch(Switch::Close)
            &&& look.closed && !look.topology.external_connected ==> applying.awaited()
                == Action::Switch(Switch::Undocked)
            &&& !look.closed && lid::undocked(look.topology) ==> applying.awaited()
                == Action::Switch(Switch::Undocked)
            &&& !look.closed && !lid::undocked(look.topology) ==> applying.awaited()
                == Action::Switch(Switch::Open)
            &&& rested.before == Some(look)
            &&& rested.retry is None
            &&& rested.last_recovery == m.last_recovery
            &&& rested.awaited() == Action::Sleep(500)
            &&& again.awaited() == Action::Look
            &&& again.before == Some(look)
        }),
{
}

/// A look that shows what the one before did is kept, and the monitor rests,
/// unless the internal panel is the only output of an open lid and a retry is
/// due or half a minute has gone by since its last recovery.
pub proof fn unchanged_looks_are_kept(m: Monitor, look: Look, now: u64)
    requires
        m.phase is Looking,
        m.before == Some(look),
        look.closed || !lid::undocked(look.topology) || (!m.retry_due(now) && now
            - m.last_recovery < 30_000),
    ensures
        ({
            let rested = m.stepped(Event::Looked { look, now });
            &&& rested.awaited() == Action::Sleep(500)
            &&& rested.before == Some(look)
            &&& rested.last_recovery == m.last_recovery
            &&& look.closed || !lid::undocked(look.topology) ==> rested.retry is None
            &&& !look.closed && lid::undocked(look.topology) ==> rested.retry == m.retry
        }),
{
}

/// With the lid open and the internal panel as the only output, it is recovered
/// when the outputs changed, when a retry is due, and every half minute.
pub proof fn lone_panel_is_recovered(m: Monitor, look: Look, now: u64, at: u64)
    requires
        m.phase is Looking,
        m.before matches Some(before) && !before.closed,
        !look.closed,
        lid::undocked(look.topology),
        at + 5_000 <= u64::MAX,
        m.before->0.topology != look.topology || (m.retry matches Some(retry) && now >= retry.1)
            || now - m.last_recovery >= 30_000,
    ensures
        ({
            let recovering = m.stepped(Event::Looked { look, now });
            let rested = recovering.stepped(Event::Switched { now: at });
            &&& recovering.awaited() == Action::Switch(Switch::Undocked)
            &&& rested.before == Some(look)
            &&& rested.last_recovery == at
            &&& rested.awaited() == Action::Sleep(500)
            &&& m.before->0.topology != look.topology ==> rested.retry == Some(
                (false, (at + 2_000) as u64),
            )
            &&& m.before->0.topology == look.topology ==> match m.retry {
                Some((false, due)) => rested.retry == Some((true, (at + 5_000) as u64)),
                _ => rested.retry is None,
            }
        }),
{
}

/// An external output that comes, or changes of the outputs around one, with
/// the lid open, are answered by the profile for an open lid. Then the look is
/// kept, and nothing is retried.
pub proof fn external_outputs_are_switched_for(m: Monitor, look: Look, now: u64, at: u64)
    requires
        m.phase is Looking,
        m.before matches Some(before) && !before.closed,
        !look.closed,
        m.before->0.topology != look.topology,
        look.topology.external_connected,
    ensures
        ({
            let settling = m.stepped(Event::Looked { look, now });
            let rested = settling.stepped(Event::Switched { now: at });
            &&& settling.awaited() == Action::Switch(Switch::Open)
            &&& rested.before == Some(look)
            &&& rested.retry is None
            &&& rested.last_recovery == m.last_recovery
            &&& rested.awaited() == Action::Sleep(500)
        }),
{
}

/// A lid that was closed, and outputs that changed behind a closed lid, are
/// answered by the profile for a closed lid where there is an external output,
/// and by the internal panel alone where there is none. A closed lid whose
/// outputs changed too is switched for twice.
pub proof fn closed_lid_is_switched_for(m: Monitor, look: Look, now: u64, at: u64, later: u64)
    requires
        m.phase is Looking,
        m.before is Some,
        look.closed,
        m.before != Some(look),
    ensures
        ({
            let was_open = !m.before->0.closed;
            let changed = m.before->0.topology != look.topology;
            let first = m.stepped(Event::Looked { look, now });
            let second = first.stepped(Event::Switched { now: at });
            let third = second.stepped(Event::Switched { now: later });
            let wanted = if look.topology.external_connected {
                Action::Switch(Switch::Close)
            } else {
                Action::Switch(Switch::Undocked)
            };
            &&& first.awaited() == wanted
            &&& was_open && changed ==> second.awaited() == wanted && third.before == Some(look)
                && third.retry is None && third.awaited() == Action::Sleep(500)
                && third.last_recovery == m.last_recovery
            &&& !(was_open && changed) ==> second.before == Some(look) && second.retry is None
                && second.awaited() == Action::Sleep(500) && second.last_recovery
                == m.last_recovery
        }),
{
}

/// An event that the monitor does not wait for changes nothing.
pub proof fn unawaited_events_change_nothing(m: Monitor, event: Event)
    requires
        match m.awaited() {
            Action::Look => !(event is Looked),
            Action::Measure => !(event is Measured),
            Action::Sleep(_) => !(event is Slept),
            Action::Switch(_) => !(event is Switched),
        },
    ensures
        m.stepped(event) == m,
{
}

} // verus!
