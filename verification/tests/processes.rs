use paneru::ecs::{ExistingMarker, FreshMarker, ProcessSerialNumber, TimeoutReason};
use paneru::processes::{LaunchStep, Processes};

const FIRST: ProcessSerialNumber = ProcessSerialNumber { high: 0, low: 1 };
const SECOND: ProcessSerialNumber = ProcessSerialNumber { high: 0, low: 2 };

#[test]
fn a_launched_process_is_fresh_and_has_a_deadline() {
    let mut processes = Processes::new();
    processes.application_event_trigger(FIRST, true);
    processes.application_event_trigger(FIRST, true);
    processes.application_event_trigger(SECOND, true);
    assert_eq!(processes.all.len(), 2);
    assert_eq!(processes.find(SECOND), Some(1));
    let entry = processes.all[0];
    assert_eq!(entry.fresh, Some(FreshMarker));
    assert_eq!(entry.timeout.unwrap().timer.duration, 5000);
    assert_eq!(entry.timeout.unwrap().message, Some(TimeoutReason::ProcessNotReady));
    processes.application_event_trigger(FIRST, false);
    assert_eq!(processes.all.len(), 1);
    assert_eq!(processes.find(FIRST), None);
    processes.application_event_trigger(FIRST, false);
    assert_eq!(processes.all.len(), 1);
}

#[test]
fn a_ready_process_gets_its_application_and_settles() {
    let mut processes = Processes::new();
    processes.application_event_trigger(FIRST, true);
    assert_eq!(processes.add_launched_process(0, false), LaunchStep::Wait);
    assert_eq!(processes.add_launched_process(0, true), LaunchStep::Attach);
    // An application that cannot be observed is not kept.
    processes.attach_application(0, 77, false, false);
    assert!(processes.all[0].application.is_none());
    processes.attach_application(0, 77, true, false);
    let app = processes.all[0].application.unwrap();
    assert_eq!(app.pid, 77);
    assert_eq!(app.fresh, Some(FreshMarker));
    assert_eq!(app.timeout.unwrap().message, Some(TimeoutReason::ApplicationNotObservable));
    assert_eq!(processes.add_launched_process(0, true), LaunchStep::Settle);
    assert_eq!(processes.all[0].fresh, None);
    assert_eq!(processes.add_launched_process(0, true), LaunchStep::Wait);

    processes.add_launched_application(0, false);
    assert!(processes.all[0].application.unwrap().fresh.is_some());
    processes.add_launched_application(0, true);
    assert!(processes.all[0].application.unwrap().fresh.is_none());
    // What is fresh no longer needs no deadline.
    processes.fresh_marker_cleanup();
    assert!(processes.all[0].timeout.is_none());
    assert!(processes.all[0].application.unwrap().timeout.is_none());
    processes.timeout_ticker(1_000_000);
    processes.timeout_ticker(1_000_000);
    assert_eq!(processes.all.len(), 1);
}

#[test]
fn what_does_not_become_ready_is_given_up() {
    let mut processes = Processes::new();
    processes.add_existing_process(SECOND);
    assert_eq!(processes.all[0].existing, Some(ExistingMarker));
    processes.attach_application(0, 5, true, true);
    assert_eq!(processes.all[0].existing, None);
    assert_eq!(processes.all[0].application.unwrap().existing, Some(ExistingMarker));
    processes.application_event_trigger(FIRST, true);
    processes.attach_application(1, 9, true, false);
    processes.fresh_marker_cleanup();
    assert!(processes.all[1].timeout.is_some());
    processes.timeout_ticker(4999);
    assert_eq!(processes.all.len(), 2);
    processes.timeout_ticker(1);
    assert_eq!(processes.all.len(), 2);
    assert_eq!(processes.all[1].timeout.unwrap().timer.elapsed, 5000);
    processes.timeout_ticker(1);
    // The process that was launched is gone, the one from before stays.
    assert_eq!(processes.all.len(), 1);
    assert_eq!(processes.all[0].psn, SECOND);
}

#[test]
fn only_processes_that_can_be_observed_are_taken_in_at_startup() {
    let third = ProcessSerialNumber { high: 1, low: 3 };
    let mut processes = Processes::new();
    processes.gather_initial_processes(&vec![(FIRST, true), (SECOND, false), (third, true)]);
    assert_eq!(processes.all.len(), 2);
    // The last one that was found comes first.
    assert_eq!(processes.all[0].psn, third);
    assert_eq!(processes.all[1].psn, FIRST);
    assert!(processes.all.iter().all(|entry| entry.existing == Some(ExistingMarker)));
    assert!(processes.all.iter().all(|entry| entry.timeout.is_none()));
    assert_eq!(processes.find(SECOND), None);
}

#[test]
fn processes_from_before_are_pending_until_their_windows_are_known() {
    let mut processes = Processes::new();
    assert!(!processes.pending());
    processes.application_event_trigger(FIRST, true);
    assert!(!processes.pending());
    processes.add_existing_process(SECOND);
    assert!(processes.pending());
    processes.attach_application(1, 5, true, true);
    assert!(processes.pending());
    processes.add_launched_application(1, true);
    assert!(!processes.pending());
}
