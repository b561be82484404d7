//! The processes that are running and the applications they become.

use vstd::prelude::*;
use crate::displays::timeout_ticked;
use crate::ecs::{
    ExistingMarker, FreshMarker, Pid, ProcessSerialNumber, Timeout, TimeoutReason, Timer,
};

verus! {

/// How long a launched process may take to become ready, in milliseconds.
pub const PROCESS_READY_TIMEOUT_MS: u64 = 5000;

/// How long an application may take to become observable, in
/// milliseconds.
pub const APP_OBSERVABLE_TIMEOUT_MS: u64 = 5000;

/// The application of a process, once the process is ready.
#[derive(Clone, Copy, Debug, PartialEq, Eq, Structural)]
pub struct ApplicationEntry {
    pub pid: Pid,
    pub fresh: Option<FreshMarker>,
    pub existing: Option<ExistingMarker>,
    pub timeout: Option<Timeout>,
}

/// A process that is running.
#[derive(Clone, Copy, Debug, PartialEq, Eq, Structural)]
pub struct ProcessEntry {
    pub psn: ProcessSerialNumber,
    pub fresh: Option<FreshMarker>,
    pub existing: Option<ExistingMarker>,
    pub timeout: Option<Timeout>,
    pub application: Option<ApplicationEntry>,
}

/// What to do with a process that was launched a moment ago.
#[derive(Clone, Copy, Debug, PartialEq, Eq, Structural)]
pub enum LaunchStep {
    /// Nothing yet: it is not ready, or not the first with its serial
    /// number.
    Wait,
    /// It has its application: it is fresh no longer.
    Settle,
    /// It is ready: its application is to be made and observed.
    Attach,
}

/// Index of the first process at or after `from` with the serial number
/// `psn`, or the number of processes.
pub open spec fn process_index(processes: Seq<ProcessEntry>, psn: ProcessSerialNumber, from: int)
    -> int
    decreases processes.len() - from,
{
    if from < 0 || from >= processes.len() {
        processes.len() as int
    } else if processes[from].psn == psn {
        from
    } else {
        process_index(processes, psn, from + 1)
    }
}

/// The timeout of a process that was launched.
pub open spec fn process_timeout() -> Timeout {
    Timeout {
        timer: Timer { duration: PROCESS_READY_TIMEOUT_MS, elapsed: 0 },
        message: Some(TimeoutReason::ProcessNotReady),
    }
}

/// The timeout of an application that is being observed.
pub open spec fn application_timeout() -> Timeout {
    Timeout {
        timer: Timer { duration: APP_OBSERVABLE_TIMEOUT_MS, elapsed: 0 },
        message: Some(TimeoutReason::ApplicationNotObservable),
    }
}

/// The processes after one with the serial number `psn` was launched: it
/// is among them, fresh and with a deadline, unless it was known already.
pub open spec fn launched(processes: Seq<ProcessEntry>, psn: ProcessSerialNumber) -> Seq<
    ProcessEntry,
> {
    if process_index(processes, psn, 0) < processes.len() {
        processes
    } else {
        processes.push(
            ProcessEntry {
                psn,
                fresh: Some(FreshMarker),
                existing: None,
                timeout: Some(process_timeout()),
                application: None,
            },
        )
    }
}

/// The processes after the one with the serial number `psn` ended: it is
/// gone, with its application.
pub open spec fn terminated(processes: Seq<ProcessEntry>, psn: ProcessSerialNumber) -> Seq<
    ProcessEntry,
> {
    let at = process_index(processes, psn, 0);
    if at < processes.len() {
        processes.remove(at)
    } else {
        processes
    }
}

/// What to do with the fresh process at `at`, which is ready or not as
/// `ready` says.
pub open spec fn launch_step(processes: Seq<ProcessEntry>, at: int, ready: bool) -> LaunchStep {
    let entry = processes[at];
    if entry.fresh.is_none() || process_index(processes, entry.psn, 0) != at || !ready {
        LaunchStep::Wait
    } else if entry.application.is_some() {
        LaunchStep::Settle
    } else {
        LaunchStep::Attach
    }
}

/// A timeout that has served its purpose is dropped: that of a process or
/// an application that is fresh no longer.
pub open spec fn cleaned(entry: ProcessEntry) -> ProcessEntry {
    ProcessEntry {
        timeout: if entry.fresh.is_none() {
            None
        } else {
            entry.timeout
        },
        application: match entry.application {
            Some(app) => Some(
                ApplicationEntry {
                    timeout: if app.fresh.is_none() {
                        None
                    } else {
                        app.timeout
                    },
                    ..app
                },
            ),
            None => None,
        },
        ..entry
    }
}

/// A process after `delta` milliseconds passed, where its time has not
/// run out: an application whose time has run out is gone.
pub open spec fn process_ticked(entry: ProcessEntry, delta: u64) -> ProcessEntry {
    ProcessEntry {
        timeout: match entry.timeout {
            Some(timeout) => Some(timeout_ticked(timeout, delta)),
            None => None,
        },
        application: match entry.application {
            Some(app) => match app.timeout {
                Some(timeout) => if timeout.timer.is_finished() {
                    None
                } else {
                    Some(ApplicationEntry { timeout: Some(timeout_ticked(timeout, delta)), ..app })
                },
                None => Some(app),
            },
            None => None,
        },
        ..entry
    }
}

/// The processes from the `i`-th on after `delta` milliseconds passed: a
/// process whose time has run out is gone.
pub open spec fn processes_ticked(processes: Seq<ProcessEntry>, delta: u64, i: int) -> Seq<
    ProcessEntry,
>
    decreases processes.len() - i,
{
    if i < 0 || i >= processes.len() {
        processes
    } else if processes[i].timeout.is_some() && processes[i].timeout.unwrap().timer.is_finished() {
        processes_ticked(processes.remove(i), delta, i)
    } else {
        processes_ticked(processes.update(i, process_ticked(processes[i], delta)), delta, i + 1)
    }
}

/// A process that ran before the window manager did.
pub open spec fn existing_process(psn: ProcessSerialNumber) -> ProcessEntry {
    ProcessEntry { psn, fresh: None, existing: Some(ExistingMarker), timeout: None, application: None }
}

/// The processes after those of the first `k` that were found at startup
/// and can be observed were taken in, the last one first.
pub open spec fn gathered(
    processes: Seq<ProcessEntry>,
    found: Seq<(ProcessSerialNumber, bool)>,
    k: int,
) -> Seq<ProcessEntry>
    decreases k,
{
    if k <= 0 {
        processes
    } else if found[k - 1].1 {
        gathered(processes.push(existing_process(found[k - 1].0)), found, k - 1)
    } else {
        gathered(processes, found, k - 1)
    }
}

/// The processes that are known.
pub struct Processes {
    pub all: Vec<ProcessEntry>,
}

impl View for Processes {
    type V = Seq<ProcessEntry>;

    open spec fn view(&self) -> Seq<ProcessEntry> {
        self.all@
    }
}

fn tick_timeout(timeout: Timeout, delta: u64) -> (r: Timeout)
    ensures
        r == timeout_ticked(timeout, delta),
{
    let mut timer = timeout.timer;
    timer.tick(delta);
    Timeout { timer, message: timeout.message }
}

impl Processes {
    pub fn new() -> (p: Processes)
        ensures
            p@ == Seq::<ProcessEntry>::empty(),
    {
        Processes { all: Vec::new() }
    }

    /// Finds the process with the serial number `psn`.
    pub fn find(&self, psn: ProcessSerialNumber) -> (r: Option<usize>)
        ensures
            match r {
                Some(i) => i == process_index(self@, psn, 0) && i < self@.len(),
                None => process_index(self@, psn, 0) == self@.len(),
            },
    {
        let mut i: usize = 0;
        while i < self.all.len()
            invariant
                i <= self.all.len(),
                process_index(self@, psn, 0) == process_index(self@, psn, i as int),
            decreases self.all.len() - i,
        {
            if self.all[i].psn == psn {
                return Some(i);
            }
            i += 1;
        }
        None
    }

    /// Takes in a process that ran before the window manager did.
    pub fn add_existing_process(&mut self, psn: ProcessSerialNumber)
        ensures
            final(self)@ == old(self)@.push(
                ProcessEntry {
                    psn,
                    fresh: None,
                    existing: Some(ExistingMarker),
                    timeout: None,
                    application: None,
                },
            ),
    {
        self.all.push(
            ProcessEntry {
                psn,
                fresh: None,
                existing: Some(ExistingMarker),
                timeout: None,
                application: None,
            },
        );
    }

    /// Takes in the processes that were found at startup, each with
    /// whether it can be observed: those that can are taken in, the last
    /// one first, and the others are left out.
    pub fn gather_initial_processes(&mut self, found: &Vec<(ProcessSerialNumber, bool)>)
        ensures
            final(self)@ == gathered(old(self)@, found@, found@.len() as int),
    {
        let mut k: usize = found.len();
        while k > 0
            invariant
                k <= found.len(),
                gathered(old(self)@, found@, found@.len() as int) == gathered(
                    self@,
                    found@,
                    k as int,
                ),
            decreases k,
        {
            let (psn, observable) = found[k - 1];
            if observable {
                self.add_existing_process(psn);
            }
            k -= 1;
        }
    }

    /// Handles the report that an application was launched or has ended.
    pub fn application_event_trigger(&mut self, psn: ProcessSerialNumber, is_launch: bool)
        ensures
            final(self)@ == (if is_launch {
                launched(old(self)@, psn)
            } else {
                terminated(old(self)@, psn)
            }),
    {
        let found = self.find(psn);
        if is_launch {
            if found.is_none() {
                self.all.push(
                    ProcessEntry {
                        psn,
                        fresh: Some(FreshMarker),
                        existing: None,
                        timeout: Some(
                            Timeout::new(
                                PROCESS_READY_TIMEOUT_MS,
                                Some(TimeoutReason::ProcessNotReady),
                            ),
                        ),
                        application: None,
                    },
                );
            }
        } else if let Some(at) = found {
            self.all.remove(at);
        }
    }

    /// Decides what to do with the process at `at`, which is ready or not
    /// as `ready` says. A process that has its application is fresh no
    /// longer.
    pub fn add_launched_process(&mut self, at: usize, ready: bool) -> (r: LaunchStep)
        requires
            at < old(self)@.len(),
        ensures
            r == launch_step(old(self)@, at as int, ready),
            final(self)@ == (if r == LaunchStep::Settle {
                old(self)@.update(
                    at as int,
                    ProcessEntry { fresh: None, ..old(self)@[at as int] },
                )
            } else {
                old(self)@
            }),
    {
        let entry = self.all[at];
        let first = match self.find(entry.psn) {
            Some(i) => i == at,
            None => false,
        };
        if entry.fresh.is_none() || !first || !ready {
            LaunchStep::Wait
        } else if entry.application.is_some() {
            self.all.set(at, ProcessEntry { fresh: None, ..entry });
            LaunchStep::Settle
        } else {
            LaunchStep::Attach
        }
    }

    /// Gives the process at `at` its application, which is being observed
    /// or not as `observing` says. An application that cannot be observed
    /// is not kept.
    pub fn attach_application(&mut self, at: usize, pid: Pid, observing: bool, existing: bool)
        requires
            at < old(self)@.len(),
        ensures
            final(self)@ == (if observing {
                old(self)@.update(
                    at as int,
                    ProcessEntry {
                        existing: None,
                        application: Some(
                            if existing {
                                ApplicationEntry {
                                    pid,
                                    fresh: None,
                                    existing: Some(ExistingMarker),
                                    timeout: None,
                                }
                            } else {
                                ApplicationEntry {
                                    pid,
                                    fresh: Some(FreshMarker),
                                    existing: None,
                                    timeout: Some(application_timeout()),
                                }
                            },
                        ),
                        ..old(self)@[at as int]
                    },
                )
            } else {
                old(self)@
            }),
    {
        if observing {
            let entry = self.all[at];
            let application = if existing {
                ApplicationEntry { pid, fresh: None, existing: Some(ExistingMarker), timeout: None }
            } else {
                ApplicationEntry {
                    pid,
                    fresh: Some(FreshMarker),
                    existing: None,
                    timeout: Some(
                        Timeout::new(
                            APP_OBSERVABLE_TIMEOUT_MS,
                            Some(TimeoutReason::ApplicationNotObservable),
                        ),
                    ),
                }
            };
            self.all.set(
                at,
                ProcessEntry { existing: None, application: Some(application), ..entry },
            );
        }
    }

    /// Notes that the application of the process at `at` has shown
    /// windows that were not known, if `new_windows`: it is fresh, and
    /// left from before, no longer.
    pub fn add_launched_application(&mut self, at: usize, new_windows: bool)
        requires
            at < old(self)@.len(),
        ensures
            final(self)@ == (match old(self)@[at as int].application {
                Some(app) if new_windows => old(self)@.update(
                    at as int,
                    ProcessEntry {
                        application: Some(ApplicationEntry { fresh: None, existing: None, ..app }),
                        ..old(self)@[at as int]
                    },
                ),
                _ => old(self)@,
            }),
    {
        let entry = self.all[at];
        if let Some(app) = entry.application {
            if new_windows {
                self.all.set(
                    at,
                    ProcessEntry {
                        application: Some(ApplicationEntry { fresh: None, existing: None, ..app }),
                        ..entry
                    },
                );
            }
        }
    }

    /// Drops the deadlines of the processes and applications that are
    /// fresh no longer.
    pub fn fresh_marker_cleanup(&mut self)
        ensures
            final(self)@ == Seq::new(old(self)@.len(), |i: int| cleaned(old(self)@[i])),
    {
        let n = self.all.len();
        let mut i: usize = 0;
        while i < n
            invariant
                i <= n,
                n == self@.len(),
                n == old(self)@.len(),
                forall|j: int| 0 <= j < i ==> self@[j] == cleaned(old(self)@[j]),
                forall|j: int| i <= j < n ==> self@[j] == old(self)@[j],
            decreases n - i,
        {
            let entry = self.all[i];
            let application = match entry.application {
                Some(app) => Some(
                    ApplicationEntry {
                        timeout: if app.fresh.is_none() {
                            None
                        } else {
                            app.timeout
                        },
                        ..app
                    },
                ),
                None => None,
            };
            self.all.set(
                i,
                ProcessEntry {
                    timeout: if entry.fresh.is_none() {
                        None
                    } else {
                        entry.timeout
                    },
                    application,
                    ..entry
                },
            );
            i += 1;
        }
        assert(self@ =~= Seq::new(old(self)@.len(), |i: int| cleaned(old(self)@[i])));
    }

    /// Lets `delta` milliseconds pass: processes and applications whose
    /// deadline has passed are given up.
    pub fn timeout_ticker(&mut self, delta: u64)
        ensures
            final(self)@ == processes_ticked(old(self)@, delta, 0),
    {
        let mut i: usize = 0;
        while i < self.all.len()
            invariant
                i <= self.all.len(),
                processes_ticked(old(self)@, delta, 0) == processes_ticked(self@, delta, i as int),
            decreases self.all.len() - i,
        {
            let entry = self.all[i];
            let expired = match entry.timeout {
                Some(timeout) => timeout.timer.is_finished(),
                None => false,
            };
            if expired {
                self.all.remove(i);
            } else {
                let application = match entry.application {
                    Some(app) => match app.timeout {
                        Some(timeout) => if timeout.timer.is_finished() {
                            None
                        } else {
                            Some(
                                ApplicationEntry {
                                    timeout: Some(tick_timeout(timeout, delta)),
                                    ..app
                                },
                            )
                        },
                        None => Some(app),
                    },
                    None => None,
                };
                let timeout = match entry.timeout {
                    Some(timeout) => Some(tick_timeout(timeout, delta)),
                    None => None,
                };
                self.all.set(i, ProcessEntry { timeout, application, ..entry });
                i += 1;
            }
        }
    }
}

/// Whether a process, or its application, is still marked as one that ran
/// before the window manager did.
pub open spec fn still_existing(p: ProcessEntry) -> bool {
    p.existing.is_some() || match p.application {
        Some(app) => app.existing.is_some(),
        None => false,
    }
}

impl Processes {
    /// Whether a process that ran before the window manager did is still
    /// to be looked at.
    pub fn pending(&self) -> (r: bool)
        ensures
            r == exists|i: int| 0 <= i < self@.len() && still_existing(#[trigger] self@[i]),
    {
        let mut i: usize = 0;
        while i < self.all.len()
            invariant
                i <= self.all.len(),
                forall|j: int| 0 <= j < i ==> !still_existing(#[trigger] self@[j]),
            decreases self.all.len() - i,
        {
            let entry = self.all[i];
            let marked = entry.existing.is_some() || match entry.application {
                Some(app) => app.existing.is_some(),
                None => false,
            };
            if marked {
                assert(still_existing(self@[i as int]));
                return true;
            }
            i += 1;
        }
        false
    }
}

} // verus!
