use status_notifier::guard::{is_running, MarkerVerdict};
use status_notifier::poller::CycleError;
use status_notifier::registry::Config;
use status_notifier::server::{
    Phase, Server, StartAction, StartError, StartEvent, StopAction, StopError, StopEvent,
};

fn server() -> Server {
    Server::new(Config::empty("/h/reg.toml".to_string()), "/h/conf".to_string())
}

#[test]
fn marker_lies_in_config_dir() {
    let s = server();
    assert_eq!(s.pid_path(), "/h/conf/rs-notifier.pid");
    assert_eq!(s.phase(), Phase::Stopped);
}

#[test]
fn stop_without_marker_reports_not_running() {
    let mut s = server();
    let verdict = is_running(None, false);
    assert_eq!(verdict, MarkerVerdict::NotRunning);
    let running = matches!(verdict, MarkerVerdict::Running { .. });
    assert_eq!(s.stop(StopEvent::Requested { running }), StopAction::ReportNotRunning);
    assert_eq!(s.stop(StopEvent::SignalSent { delivered: true }), StopAction::Ignore);
}

#[test]
fn stop_signals_the_recorded_process() {
    let mut s = server();
    assert_eq!(s.stop(StopEvent::Requested { running: true }), StopAction::ReadMarker);
    assert_eq!(s.stop(StopEvent::MarkerRead { pid: Some(77) }), StopAction::SendSignal { pid: 77 });
    assert_eq!(s.stop(StopEvent::SignalSent { delivered: true }), StopAction::RemoveMarker);
}

#[test]
fn failed_signal_keeps_marker() {
    let mut s = server();
    s.stop(StopEvent::Requested { running: true });
    s.stop(StopEvent::MarkerRead { pid: Some(77) });
    assert_eq!(
        s.stop(StopEvent::SignalSent { delivered: false }),
        StopAction::Fail { error: StopError::SignalDeliveryFailed }
    );
}

#[test]
fn start_when_running_reports_it() {
    let mut s = server();
    let a = s.start(StartEvent::Requested { already_running: true, has_dashboard_url: true });
    assert_eq!(a, StartAction::ReportAlreadyRunning);
    assert_eq!(s.phase(), Phase::Stopped);
}

#[test]
fn start_without_dashboard_url_aborts() {
    let mut s = server();
    let a = s.start(StartEvent::Requested { already_running: false, has_dashboard_url: false });
    assert_eq!(a, StartAction::Abort { error: StartError::MissingDashboardUrl });
}

#[test]
fn stop_request_ends_the_loop_within_one_interval() {
    let mut s = server();
    assert_eq!(s.start(StartEvent::Requested { already_running: false, has_dashboard_url: true }), StartAction::Detach);
    assert_eq!(s.start(StartEvent::Detached { ok: true }), StartAction::InstallSignalHandler);
    assert_eq!(s.start(StartEvent::HandlerInstalled { ok: true }), StartAction::CheckStop);
    assert_eq!(s.start(StartEvent::Tick { stop_requested: false }), StartAction::RunCycle);
    assert_eq!(s.start(StartEvent::CycleFinished), StartAction::Sleep);
    assert_eq!(s.start(StartEvent::Tick { stop_requested: true }), StartAction::ClearMarker);
    assert_eq!(s.start(StartEvent::MarkerCleared), StartAction::Exit);
    assert_eq!(s.phase(), Phase::Stopped);
}

#[test]
fn failed_detach_aborts_start() {
    let mut s = server();
    s.start(StartEvent::Requested { already_running: false, has_dashboard_url: true });
    assert_eq!(s.start(StartEvent::Detached { ok: false }), StartAction::Abort { error: StartError::DetachFailed });
}

#[test]
fn cycle_reloads_the_registry() {
    let mut s = server();
    assert!(matches!(s.begin_cycle(None), Err(CycleError::NoFilesToWatch)));
    let text = "[repoA]\nstatus_file = \"/w/a.json\"\n".to_string();
    let entries = s.begin_cycle(Some(text)).unwrap();
    assert_eq!(entries, vec![("repoA".to_string(), "/w/a.json".to_string())]);
    assert!(matches!(s.begin_cycle(Some("[[".to_string())), Err(CycleError::ConfigCorrupt)));
    assert_eq!(s.config().list_all().len(), 1);
}
