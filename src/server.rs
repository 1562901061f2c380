//! The background instance: its start and stop as state machines, and the
//! registry step that opens each poll cycle.
//!
//! The program that runs an instance performs each action that a step returns
//! and hands the step the event that the action produced.
use vstd::prelude::*;
use crate::guard::{verdict_of, MarkerVerdict};
use crate::paths::{join_of, join_path};
use crate::poller::CycleError;
use crate::registry::{fields_view, map_of, registry_of_table, toml_table_of, Config};

verus! {

/// Where a start stands. `Detaching` and `InstallingHandler` are starting;
/// `AwaitingTick` and `Polling` are running.
#[derive(Debug, Clone, Copy, PartialEq, Eq, Structural)]
pub enum Phase {
    Stopped,
    Detaching,
    InstallingHandler,
    AwaitingTick,
    Polling,
    Stopping,
}

/// What the program reports to a start.
#[derive(Debug, Clone, Copy, PartialEq, Eq, Structural)]
pub enum StartEvent {
    /// A start was asked for; whether an instance already runs, and whether a
    /// dashboard URL is configured.
    Requested { already_running: bool, has_dashboard_url: bool },
    /// Detaching, and writing the marker, succeeded or failed.
    Detached { ok: bool },
    /// Installing the termination-signal handler succeeded or failed.
    HandlerInstalled { ok: bool },
    /// The loop looked for a stop request, at its start or after a sleep.
    Tick { stop_requested: bool },
    /// A poll cycle ended, whatever its outcome.
    CycleFinished,
    /// The marker was deleted.
    MarkerCleared,
}

/// Why a start was given up.
#[derive(Debug, Clone, Copy, PartialEq, Eq, Structural)]
pub enum StartError {
    MissingDashboardUrl,
    DetachFailed,
    SignalSetupFailed,
}

/// What a start asks the program to do next.
#[derive(Debug, Clone, Copy, PartialEq, Eq, Structural)]
pub enum StartAction {
    ReportAlreadyRunning,
    Abort { error: StartError },
    /// Delete the marker, then give up with `error`.
    ClearMarkerAndAbort { error: StartError },
    /// Detach from the terminal, send output to the log files, write the marker.
    Detach,
    InstallSignalHandler,
    /// Look for a stop request now.
    CheckStop,
    RunCycle,
    /// Report the cycle's outcome, sleep one polling interval, then look for a
    /// stop request.
    Sleep,
    ClearMarker,
    /// Exit with code 0.
    Exit,
    /// The event does not belong to this phase: nothing to do.
    Ignore,
}

/// Where a stop stands.
#[derive(Debug, Clone, Copy, PartialEq, Eq, Structural)]
pub enum StopPhase {
    Idle,
    ReadingMarker,
    Signalling,
}

/// What the program reports to a stop.
#[derive(Debug, Clone, Copy, PartialEq, Eq, Structural)]
pub enum StopEvent {
    /// A stop was asked for; whether an instance runs.
    Requested { running: bool },
    /// The marker was read: the process id it records, if any.
    MarkerRead { pid: Option<u32> },
    /// The termination signal was delivered, or not.
    SignalSent { delivered: bool },
}

/// Why a stop failed. The marker stays, so that another stop can try again.
#[derive(Debug, Clone, Copy, PartialEq, Eq, Structural)]
pub enum StopError {
    MarkerUnreadable,
    SignalDeliveryFailed,
}

/// What a stop asks the program to do next.
#[derive(Debug, Clone, Copy, PartialEq, Eq, Structural)]
pub enum StopAction {
    ReportNotRunning,
    ReadMarker,
    SendSignal { pid: u32 },
    /// Delete the marker and report that the instance stopped.
    RemoveMarker,
    Fail { error: StopError },
    Ignore,
}

/// One step of a start.
pub open spec fn start_step(p: Phase, e: StartEvent) -> (Phase, StartAction) {
    match (p, e) {
        (Phase::Stopped, StartEvent::Requested { already_running, has_dashboard_url }) => {
            if already_running {
                (Phase::Stopped, StartAction::ReportAlreadyRunning)
            } else if !has_dashboard_url {
                (Phase::Stopped, StartAction::Abort { error: StartError::MissingDashboardUrl })
            } else {
                (Phase::Detaching, StartAction::Detach)
            }
        },
        (Phase::Detaching, StartEvent::Detached { ok }) => {
            if ok {
                (Phase::InstallingHandler, StartAction::InstallSignalHandler)
            } else {
                (Phase::Stopped, StartAction::Abort { error: StartError::DetachFailed })
            }
        },
        (Phase::InstallingHandler, StartEvent::HandlerInstalled { ok }) => {
            if ok {
                (Phase::AwaitingTick, StartAction::CheckStop)
            } else {
                (
                    Phase::Stopped,
                    StartAction::ClearMarkerAndAbort { error: StartError::SignalSetupFailed },
                )
            }
        },
        (Phase::AwaitingTick, StartEvent::Tick { stop_requested }) => {
            if stop_requested {
                (Phase::Stopping, StartAction::ClearMarker)
            } else {
                (Phase::Polling, StartAction::RunCycle)
            }
        },
        (Phase::Polling, StartEvent::CycleFinished) => (Phase::AwaitingTick, StartAction::Sleep),
        (Phase::Stopping, StartEvent::MarkerCleared) => (Phase::Stopped, StartAction::Exit),
        _ => (p, StartAction::Ignore),
    }
}

/// The phase and the actions after a sequence of events.
pub open spec fn run_start(p: Phase, events: Seq<StartEvent>) -> (Phase, Seq<StartAction>)
    decreases events.len(),
{
    if events.len() == 0 {
        (p, Seq::empty())
    } else {
        let (q, a) = start_step(p, events[0]);
        let (last, rest) = run_start(q, events.drop_first());
        (last, seq![a] + rest)
    }
}

/// One step of a stop.
pub open spec fn stop_step(p: StopPhase, e: StopEvent) -> (StopPhase, StopAction) {
    match (p, e) {
        (StopPhase::Idle, StopEvent::Requested { running }) => {
            if running {
                (StopPhase::ReadingMarker, StopAction::ReadMarker)
            } else {
                (StopPhase::Idle, StopAction::ReportNotRunning)
            }
        },
        (StopPhase::ReadingMarker, StopEvent::MarkerRead { pid }) => match pid {
            Some(p) => (StopPhase::Signalling, StopAction::SendSignal { pid: p }),
            None => (StopPhase::Idle, StopAction::Fail { error: StopError::MarkerUnreadable }),
        },
        (StopPhase::Signalling, StopEvent::SignalSent { delivered }) => {
            if delivered {
                (StopPhase::Idle, StopAction::RemoveMarker)
            } else {
                (StopPhase::Idle, StopAction::Fail { error: StopError::SignalDeliveryFailed })
            }
        },
        _ => (p, StopAction::Ignore),
    }
}

pub open spec fn marker_file_name() -> Seq<char> {
    seq!['r', 's', '-', 'n', 'o', 't', 'i', 'f', 'i', 'e', 'r', '.', 'p', 'i', 'd']
}

/// The background instance: the registry it polls, where its marker lies, and
/// where its start and its stop stand.
pub struct Server {
    config: Config,
    pid_path: String,
    phase: Phase,
    stop_phase: StopPhase,
}

impl Server {
    pub open spec fn wf(&self) -> bool {
        self.spec_config().wf()
    }

    pub closed spec fn spec_config(&self) -> Config {
        self.config
    }

    pub closed spec fn spec_pid_path(&self) -> Seq<char> {
        self.pid_path@
    }

    pub closed spec fn spec_phase(&self) -> Phase {
        self.phase
    }

    pub closed spec fn spec_stop_phase(&self) -> StopPhase {
        self.stop_phase
    }

    /// A stopped instance over `config`, whose marker lies in `config_dir`.
    pub fn new(config: Config, config_dir: String) -> (r: Server)
        requires
            config.wf(),
        ensures
            r.wf(),
            r.spec_config() == config,
            r.spec_pid_path() == join_of(config_dir@, marker_file_name()),
            r.spec_phase() == Phase::Stopped,
            r.spec_stop_phase() == StopPhase::Idle,
    {
        proof {
            reveal_strlit("rs-notifier.pid");
            assert("rs-notifier.pid"@ =~= marker_file_name());
        }
        let pid_path = join_path(config_dir.as_str(), "rs-notifier.pid");
        Server { config, pid_path, phase: Phase::Stopped, stop_phase: StopPhase::Idle }
    }

    /// The path of the marker.
    pub fn pid_path(&self) -> (r: &String)
        ensures
            r@ == self.spec_pid_path(),
    {
        &self.pid_path
    }

    /// Where the start stands.
    pub fn phase(&self) -> (r: Phase)
        ensures
            r == self.spec_phase(),
    {
        self.phase
    }

    /// The registry.
    pub fn config(&self) -> (r: &Config)
        ensures
            *r == self.spec_config(),
    {
        &self.config
    }

    /// One step of a start: the next action for event `e`.
    pub fn start(&mut self, e: StartEvent) -> (r: StartAction)
        requires
            old(self).wf(),
        ensures
            final(self).wf(),
            (final(self).spec_phase(), r) == start_step(old(self).spec_phase(), e),
            final(self).spec_config() == old(self).spec_config(),
            final(self).spec_pid_path() == old(self).spec_pid_path(),
            final(self).spec_stop_phase() == old(self).spec_stop_phase(),
    {
        let (next, action) = match (self.phase, e) {
            (Phase::Stopped, StartEvent::Requested { already_running, has_dashboard_url }) => {
                if already_running {
                    (Phase::Stopped, StartAction::ReportAlreadyRunning)
                } else if !has_dashboard_url {
                    (Phase::Stopped, StartAction::Abort { error: StartError::MissingDashboardUrl })
                } else {
                    (Phase::Detaching, StartAction::Detach)
                }
            },
            (Phase::Detaching, StartEvent::Detached { ok }) => {
                if ok {
                    (Phase::InstallingHandler, StartAction::InstallSignalHandler)
                } else {
                    (Phase::Stopped, StartAction::Abort { error: StartError::DetachFailed })
                }
            },
            (Phase::InstallingHandler, StartEvent::HandlerInstalled { ok }) => {
                if ok {
                    (Phase::AwaitingTick, StartAction::CheckStop)
                } else {
                    (
                        Phase::Stopped,
                        StartAction::ClearMarkerAndAbort { error: StartError::SignalSetupFailed },
                    )
                }
            },
            (Phase::AwaitingTick, StartEvent::Tick { stop_requested }) => {
                if stop_requested {
                    (Phase::Stopping, StartAction::ClearMarker)
                } else {
                    (Phase::Polling, StartAction::RunCycle)
                }
            },
            (Phase::Polling, StartEvent::CycleFinished) => (
                Phase::AwaitingTick,
                StartAction::Sleep,
            ),
            (Phase::Stopping, StartEvent::MarkerCleared) => (Phase::Stopped, StartAction::Exit),
            _ => (self.phase, StartAction::Ignore),
        };
        self.phase = next;
        action
    }

    /// One step of a stop: the next action for event `e`.
    pub fn stop(&mut self, e: StopEvent) -> (r: StopAction)
        requires
            old(self).wf(),
        ensures
            final(self).wf(),
            (final(self).spec_stop_phase(), r) == stop_step(old(self).spec_stop_phase(), e),
            final(self).spec_config() == old(self).spec_config(),
            final(self).spec_pid_path() == old(self).spec_pid_path(),
            final(self).spec_phase() == old(self).spec_phase(),
    {
        let (next, action) = match (self.stop_phase, e) {
            (StopPhase::Idle, StopEvent::Requested { running }) => {
                if running {
                    (StopPhase::ReadingMarker, StopAction::ReadMarker)
                } else {
                    (StopPhase::Idle, StopAction::ReportNotRunning)
                }
            },
            (StopPhase::ReadingMarker, StopEvent::MarkerRead { pid }) => match pid {
                Some(p) => (StopPhase::Signalling, StopAction::SendSignal { pid: p }),
                None => (StopPhase::Idle, StopAction::Fail { error: StopError::MarkerUnreadable }),
            },
            (StopPhase::Signalling, StopEvent::SignalSent { delivered }) => {
                if delivered {
                    (StopPhase::Idle, StopAction::RemoveMarker)
                } else {
                    (StopPhase::Idle, StopAction::Fail { error: StopError::SignalDeliveryFailed })
                }
            },
            _ => (self.stop_phase, StopAction::Ignore),
        };
        self.stop_phase = next;
        action
    }

    /// Opens a poll cycle: reloads the registry from its backing text (none when
    /// the backing file is gone) and returns its entries, which must not be none.
    pub fn begin_cycle(&mut self, registry_text: Option<String>) -> (r: Result<
        Vec<(String, String)>,
        CycleError,
    >)
        requires
            old(self).wf(),
        ensures
            final(self).wf(),
            final(self).spec_phase() == old(self).spec_phase(),
            final(self).spec_stop_phase() == old(self).spec_stop_phase(),
            final(self).spec_pid_path() == old(self).spec_pid_path(),
            final(self).spec_config().file_path == old(self).spec_config().file_path,
            match r {
                Ok(entries) => map_of(fields_view(entries@)) == final(self).spec_config()@
                    && entries@.len() > 0,
                Err(CycleError::ConfigCorrupt) => true,
                Err(CycleError::NoFilesToWatch) => final(self).spec_config()@.len() == 0,
                Err(_) => false,
            },
            match registry_text {
                None => final(self).spec_config()@ == old(self).spec_config()@ && !(r matches Err(
                    CycleError::ConfigCorrupt,
                )),
                Some(t) => match toml_table_of(t@) {
                    None => r matches Err(CycleError::ConfigCorrupt) && final(self).spec_config()@
                        == old(self).spec_config()@,
                    Some(tbl) => match registry_of_table(tbl) {
                        None => r matches Err(CycleError::ConfigCorrupt)
                            && final(self).spec_config()@ == old(self).spec_config()@,
                        Some(m) => !(r matches Err(CycleError::ConfigCorrupt))
                            && final(self).spec_config()@ == m,
                    },
                },
            },
    {
        match self.config.reload(registry_text) {
            Err(_) => Err(CycleError::ConfigCorrupt),
            Ok(()) => {
                let entries = self.config.list_all();
                if entries.len() == 0 {
                    proof {
                        assert(fields_view(entries@).len() == 0);
                        assert(self.config@ =~= Map::<Seq<char>, Seq<char>>::empty());
                    }
                    Err(CycleError::NoFilesToWatch)
                } else {
                    Ok(entries)
                }
            },
        }
    }
}

/// A stop request seen while the loop runs ends it within one polling interval:
/// at most one sleep comes before the marker is deleted, and the marker is
/// deleted before the exit.
pub proof fn lemma_stop_request_ends_loop(p: Phase)
    requires
        p == Phase::AwaitingTick || p == Phase::Polling,
    ensures
        p == Phase::AwaitingTick ==> run_start(
            p,
            seq![StartEvent::Tick { stop_requested: true }, StartEvent::MarkerCleared],
        ) == (Phase::Stopped, seq![StartAction::ClearMarker, StartAction::Exit]),
        p == Phase::Polling ==> run_start(
            p,
            seq![
                StartEvent::CycleFinished,
                StartEvent::Tick { stop_requested: true },
                StartEvent::MarkerCleared,
            ],
        ) == (
            Phase::Stopped,
            seq![StartAction::Sleep, StartAction::ClearMarker, StartAction::Exit],
        ),
{
    let tail = seq![StartEvent::Tick { stop_requested: true }, StartEvent::MarkerCleared];
    let last = seq![StartEvent::MarkerCleared];
    assert(tail.drop_first() =~= last);
    assert(last.drop_first() =~= Seq::<StartEvent>::empty());
    assert(run_start(Phase::Stopping, last) == (Phase::Stopped, seq![StartAction::Exit])) by {
        assert(last[0] == StartEvent::MarkerCleared);
        assert(start_step(Phase::Stopping, last[0]) == (Phase::Stopped, StartAction::Exit));
        assert(run_start(Phase::Stopped, last.drop_first()) == (
            Phase::Stopped,
            Seq::<StartAction>::empty(),
        ));
        assert(seq![StartAction::Exit] + Seq::<StartAction>::empty() =~= seq![StartAction::Exit]);
    }
    assert(run_start(Phase::AwaitingTick, tail) == (
        Phase::Stopped,
        seq![StartAction::ClearMarker, StartAction::Exit],
    )) by {
        assert(tail[0] == StartEvent::Tick { stop_requested: true });
        assert(seq![StartAction::ClearMarker] + seq![StartAction::Exit] =~= seq![
            StartAction::ClearMarker,
            StartAction::Exit,
        ]);
    }
    if p == Phase::Polling {
        let all = seq![
            StartEvent::CycleFinished,
            StartEvent::Tick { stop_requested: true },
            StartEvent::MarkerCleared,
        ];
        assert(all.drop_first() =~= tail);
        assert(seq![StartAction::Sleep] + seq![StartAction::ClearMarker, StartAction::Exit] =~= seq![
            StartAction::Sleep,
            StartAction::ClearMarker,
            StartAction::Exit,
        ]);
    }
}

/// With no marker, no instance runs, a stop reports that and stays idle, and no
/// event makes an idle stop send a signal.
pub proof fn lemma_stop_without_marker(alive: bool, e: StopEvent)
    ensures
        verdict_of(None, alive) == MarkerVerdict::NotRunning,
        stop_step(StopPhase::Idle, StopEvent::Requested { running: false }) == (
            StopPhase::Idle,
            StopAction::ReportNotRunning,
        ),
        !(stop_step(StopPhase::Idle, e).1 is SendSignal),
{
}

} // verus!

