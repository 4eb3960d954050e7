use sparrow::optimizer::lbf::ConstructionError;
use sparrow::optimizer::OptimizationPhase;
use sparrow::tui::listener::{
    DashboardUpdate, ReportType, TuiListener, LIVE_SVG_PATH, SNAPSHOT_INTERVAL,
};
use sparrow::tui::runtime::{
    export_final_solution, handle_key, run_dashboard, DashboardRun, KeyCode, KeyCommand, KeyEvent,
    RunCommand, RunError, RunEvent, Waiting, WorkerOutcome, FRAME_INTERVAL_MILLIS,
};
use sparrow::tui::signals::{TuiSignals, TuiTerminator};

type Event = RunEvent<u32, &'static str>;
type Update = DashboardUpdate<u8, f32, u16, u32>;

fn press(code: KeyCode) -> KeyEvent {
    KeyEvent { code, control: false, press: true }
}

#[test]
fn signals_of_the_user() {
    let mut signals = TuiSignals::new();
    assert_eq!(signals, TuiSignals { quit: false, interrupt_phase: false });
    signals.interrupt_phase();
    assert_eq!(signals, TuiSignals { quit: false, interrupt_phase: true });
    signals.request_quit();
    assert_eq!(signals, TuiSignals { quit: true, interrupt_phase: true });
}

#[test]
fn a_phase_ends_at_its_time_limit() {
    let mut signals = TuiSignals::new();
    let mut terminator = TuiTerminator::new();
    assert_eq!(terminator.timeout_at(), None);
    assert!(!terminator.kill(&signals, u128::MAX));
    terminator.new_timeout(&mut signals, 1000, 50);
    assert_eq!(terminator.timeout_at(), Some(1050));
    assert!(!terminator.kill(&signals, 1000));
    assert!(!terminator.kill(&signals, 1050));
    assert!(terminator.kill(&signals, 1051));
}

#[test]
fn an_interrupt_ends_one_phase() {
    let mut signals = TuiSignals::new();
    let mut terminator = TuiTerminator::new();
    terminator.new_timeout(&mut signals, 0, 100);
    signals.interrupt_phase();
    assert!(terminator.kill(&signals, 1));
    terminator.new_timeout(&mut signals, 2, 100);
    assert_eq!(signals, TuiSignals { quit: false, interrupt_phase: false });
    assert!(!terminator.kill(&signals, 102));
}

#[test]
fn quitting_is_final() {
    let mut signals = TuiSignals::new();
    let mut terminator = TuiTerminator::new();
    signals.request_quit();
    assert!(terminator.kill(&signals, 0));
    terminator.new_timeout(&mut signals, 0, 100);
    assert_eq!(signals, TuiSignals { quit: true, interrupt_phase: false });
    assert!(terminator.kill(&signals, 0));
}

#[test]
fn snapshots_are_apart() {
    let mut listener = TuiListener::new();
    let along: ReportType<u8> = ReportType::Intermediate(1);
    assert!(listener.report(&along, 5));
    assert_eq!(listener.last_snapshot, Some(5));
    assert!(!listener.report(&along, 5));
    assert!(!listener.report(&along, 4 + SNAPSHOT_INTERVAL));
    assert_eq!(listener.last_snapshot, Some(5));
    assert!(listener.report(&along, 5 + SNAPSHOT_INTERVAL));
    assert_eq!(listener.last_snapshot, Some(5 + SNAPSHOT_INTERVAL));
    // A clock that goes back counts as no time.
    assert!(!listener.report(&along, 1));
    assert_eq!(SNAPSHOT_INTERVAL, 100_000_000);
}

#[test]
fn the_final_solution_is_shown() {
    let mut listener = TuiListener::new();
    assert!(listener.report(&ReportType::Intermediate(1u8), 5));
    assert!(listener.report(&ReportType::<u8>::Final, 6));
    assert_eq!(listener.last_snapshot, Some(6));
}

#[test]
fn news_for_the_dashboard() {
    let listener = TuiListener::new();
    let update: Update =
        listener.solution_update(ReportType::Intermediate(3), 12.5, 0.75, 100.0);
    match update {
        DashboardUpdate::Solution { report: ReportType::Intermediate(3), width, density } => {
            assert_eq!((width, density), (12.5, 75.0));
        }
        _ => panic!("the news of a solution"),
    }
    let update: Update = listener.report_phase(OptimizationPhase::Compression);
    assert!(matches!(update, DashboardUpdate::Phase(OptimizationPhase::Compression)));
    let update: Update = listener.report_separation_progress(8);
    assert!(matches!(update, DashboardUpdate::Separation(8)));
    let update: Update = listener.report_separation_result(9);
    assert!(matches!(update, DashboardUpdate::SeparationResult(9)));
    let update: Update = listener.report_compression_progress(0.5);
    assert!(matches!(update, DashboardUpdate::Compression(step) if step == 0.5));
}

#[test]
fn keys_of_the_dashboard() {
    assert_eq!(handle_key(press(KeyCode::Esc)), Some(KeyCommand::Quit));
    assert_eq!(handle_key(press(KeyCode::Char('q'))), Some(KeyCommand::Quit));
    assert_eq!(handle_key(press(KeyCode::Char('c'))), None);
    let ctrl_c = KeyEvent { control: true, ..press(KeyCode::Char('c')) };
    assert_eq!(handle_key(ctrl_c), Some(KeyCommand::InterruptPhase));
    let ctrl_q = KeyEvent { control: true, ..press(KeyCode::Char('q')) };
    assert_eq!(handle_key(ctrl_q), Some(KeyCommand::Quit));
    assert_eq!(handle_key(press(KeyCode::Char('x'))), None);
    assert_eq!(handle_key(press(KeyCode::Up)), Some(KeyCommand::ScrollLogsUp(1)));
    assert_eq!(handle_key(press(KeyCode::Down)), Some(KeyCommand::ScrollLogsDown(1)));
    assert_eq!(handle_key(press(KeyCode::PageUp)), Some(KeyCommand::ScrollLogsUp(10)));
    assert_eq!(handle_key(press(KeyCode::PageDown)), Some(KeyCommand::ScrollLogsDown(10)));
    assert_eq!(handle_key(press(KeyCode::Home)), Some(KeyCommand::ScrollLogsUp(usize::MAX)));
    assert_eq!(handle_key(press(KeyCode::End)), Some(KeyCommand::ShowLatestLog));
    assert_eq!(handle_key(press(KeyCode::Other)), None);
    let release = KeyEvent { press: false, ..press(KeyCode::Esc) };
    assert_eq!(handle_key(release), None);
}

#[test]
fn a_run_until_the_user_quits() {
    let (run, commands) = run_dashboard(DashboardRun::new(), Event::Frame { worker_finished: false });
    assert!(matches!(commands[..], [RunCommand::Draw]));
    // A request to quit waits for the solution.
    let (run, commands) = run_dashboard(run, Event::Drawn { quit_requested: true });
    assert!(matches!(commands[..], [RunCommand::PollKey]));
    let (run, commands) = run_dashboard(run, Event::Key(Some(press(KeyCode::Up))));
    assert!(matches!(
        commands[..],
        [RunCommand::Obey(KeyCommand::ScrollLogsUp(1)), RunCommand::NextFrame]
    ));
    let (run, commands) = run_dashboard(run, Event::Frame { worker_finished: true });
    assert!(matches!(commands[..], [RunCommand::Join]));
    assert!(!run.worker);
    let (run, commands) = run_dashboard(run, Event::Joined(WorkerOutcome::Solved(17)));
    assert!(matches!(commands[..], [RunCommand::Export]));
    assert!(matches!(run.waiting, Waiting::Export(17)));
    let (run, commands) = run_dashboard(run, Event::Exported(Ok(())));
    assert!(matches!(commands[..], [RunCommand::FinishDashboard, RunCommand::Draw]));
    assert_eq!(run.solution, Some(17));
    let (run, commands) = run_dashboard(run, Event::Drawn { quit_requested: false });
    assert!(matches!(commands[..], [RunCommand::PollKey]));
    let (run, commands) = run_dashboard(run, Event::Key(None));
    assert!(matches!(commands[..], [RunCommand::NextFrame]));
    // The optimizer is not joined twice.
    let (run, commands) = run_dashboard(run, Event::Frame { worker_finished: true });
    assert!(matches!(commands[..], [RunCommand::Draw]));
    let (run, commands) = run_dashboard(run, Event::Drawn { quit_requested: true });
    assert!(matches!(commands[..], [RunCommand::Return]));
    assert_eq!(run.solution, Some(17));
    assert!(matches!(run.waiting, Waiting::Nothing));
}

#[test]
fn failures_end_the_run() {
    let joining = || run_dashboard(DashboardRun::new(), Event::Frame { worker_finished: true }).0;
    let (_, commands) = run_dashboard(joining(), Event::Joined(WorkerOutcome::Panicked));
    assert!(matches!(commands[..], [RunCommand::Fail(RunError::WorkerPanicked)]));
    let error = ConstructionError { item_id: 2 };
    let (_, commands) = run_dashboard(joining(), Event::Joined(WorkerOutcome::Failed(error)));
    assert!(matches!(
        commands[..],
        [RunCommand::Fail(RunError::Construction(ConstructionError { item_id: 2 }))]
    ));
    let (run, _) = run_dashboard(joining(), Event::Joined(WorkerOutcome::Solved(1)));
    let (run, commands) = run_dashboard(run, Event::Exported(Err("disk full")));
    assert!(matches!(commands[..], [RunCommand::Fail(RunError::Export("disk full"))]));
    assert_eq!(run.solution, None);
}

#[test]
fn files_of_the_final_solution() {
    let (svg, json) = export_final_solution("output", "swim");
    assert_eq!(svg, "output/final_swim.svg");
    assert_eq!(json, "output/final_swim.json");
    assert_eq!(LIVE_SVG_PATH, "data/live/.live_solution.svg");
    assert_eq!(FRAME_INTERVAL_MILLIS, 100);
}
