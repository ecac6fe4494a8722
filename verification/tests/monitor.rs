use streamwm::lid::{DisplayTopology, Switch};
use streamwm::monitor::{Action, Event, Look, Monitor};

const UNDOCKED: DisplayTopology = DisplayTopology {
    internal_connected: true,
    external_connected: false,
};
const DOCKED: DisplayTopology = DisplayTopology {
    internal_connected: true,
    external_connected: true,
};

/// Take a look, and return the switches that follow until the monitor rests.
fn look(monitor: &mut Monitor, closed: bool, topology: DisplayTopology, now: u64) -> Vec<Switch> {
    assert_eq!(monitor.action(), Action::Look);
    monitor.step(Event::Looked {
        look: Look { closed, topology },
        now,
    });
    let mut switches = Vec::new();
    loop {
        match monitor.action() {
            Action::Switch(switch) => {
                switches.push(switch);
                monitor.step(Event::Switched { now });
            }
            Action::Measure => monitor.step(Event::Measured { topology }),
            Action::Sleep(500) => {
                monitor.step(Event::Slept);
                return switches;
            }
            Action::Sleep(_) => monitor.step(Event::Slept),
            Action::Look => panic!("looked twice"),
        }
    }
}

#[test]
fn first_look_applies_what_fits() {
    let mut monitor = Monitor::new(100_000);
    assert_eq!(look(&mut monitor, true, DOCKED, 100_000), vec![Switch::Close]);
    let mut monitor = Monitor::new(100_000);
    assert_eq!(
        look(&mut monitor, true, UNDOCKED, 100_000),
        vec![Switch::Undocked]
    );
    let mut monitor = Monitor::new(100_000);
    assert_eq!(look(&mut monitor, false, DOCKED, 100_000), vec![Switch::Open]);
}

#[test]
fn lost_dock_is_recovered_and_retried_twice_and_then_regularly() {
    let mut monitor = Monitor::new(100_000);
    look(&mut monitor, false, DOCKED, 100_000);
    assert_eq!(look(&mut monitor, false, DOCKED, 100_500), vec![]);
    assert_eq!(
        look(&mut monitor, false, UNDOCKED, 101_000),
        vec![Switch::Undocked]
    );
    assert_eq!(look(&mut monitor, false, UNDOCKED, 102_900), vec![]);
    assert_eq!(
        look(&mut monitor, false, UNDOCKED, 103_000),
        vec![Switch::Undocked]
    );
    assert_eq!(look(&mut monitor, false, UNDOCKED, 107_900), vec![]);
    assert_eq!(
        look(&mut monitor, false, UNDOCKED, 108_000),
        vec![Switch::Undocked]
    );
    assert_eq!(look(&mut monitor, false, UNDOCKED, 137_900), vec![]);
    assert_eq!(
        look(&mut monitor, false, UNDOCKED, 138_000),
        vec![Switch::Undocked]
    );
    assert_eq!(look(&mut monitor, false, DOCKED, 139_000), vec![Switch::Open]);
    assert_eq!(monitor.retry, None);
}

#[test]
fn opened_lid_waits_for_the_panel_and_switches_twice() {
    let mut monitor = Monitor::new(100_000);
    look(&mut monitor, true, DOCKED, 100_000);
    monitor.step(Event::Looked {
        look: Look {
            closed: false,
            topology: DOCKED,
        },
        now: 101_000,
    });
    assert_eq!(monitor.action(), Action::Sleep(1_500));
    monitor.step(Event::Slept);
    assert_eq!(monitor.action(), Action::Measure);
    monitor.step(Event::Measured { topology: UNDOCKED });
    assert_eq!(monitor.action(), Action::Switch(Switch::Undocked));
    monitor.step(Event::Switched { now: 102_500 });
    assert_eq!(monitor.action(), Action::Sleep(2_000));
    monitor.step(Event::Slept);
    monitor.step(Event::Measured { topology: DOCKED });
    assert_eq!(monitor.action(), Action::Switch(Switch::Open));
    monitor.step(Event::Switched { now: 104_500 });
    assert_eq!(monitor.action(), Action::Sleep(500));
    assert_eq!(monitor.last_recovery, 104_500);
}

#[test]
fn dock_changes_behind_a_closed_lid_are_switched_for() {
    let mut monitor = Monitor::new(100_000);
    look(&mut monitor, true, DOCKED, 100_000);
    assert_eq!(
        look(&mut monitor, true, UNDOCKED, 100_500),
        vec![Switch::Undocked]
    );
    assert_eq!(look(&mut monitor, true, UNDOCKED, 101_000), vec![]);
    assert_eq!(look(&mut monitor, true, DOCKED, 101_500), vec![Switch::Close]);
}

#[test]
fn closing_the_lid_switches_for_it() {
    let mut monitor = Monitor::new(100_000);
    look(&mut monitor, false, DOCKED, 100_000);
    assert_eq!(look(&mut monitor, true, DOCKED, 100_500), vec![Switch::Close]);
}

#[test]
fn events_that_are_not_waited_for_change_nothing() {
    let mut monitor = Monitor::new(0);
    monitor.step(Event::Slept);
    monitor.step(Event::Switched { now: 5 });
    assert_eq!(monitor.action(), Action::Look);
    assert_eq!(monitor.last_recovery, 0);
}
