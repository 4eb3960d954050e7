//! The dashboard's loop: what it does with a finished optimizer, and with the keys that are pressed.
use crate::optimizer::lbf::ConstructionError;
use vstd::prelude::*;

verus! {

/// How long a frame waits for a key, in milliseconds.
pub const FRAME_INTERVAL_MILLIS: u64 = 100;

/// A key.
#[derive(Clone, Copy, Debug, PartialEq, Eq, Structural)]
pub enum KeyCode {
    Esc,
    Char(char),
    Up,
    Down,
    PageUp,
    PageDown,
    Home,
    End,
    Other,
}

/// Something that has happened to a key.
#[derive(Clone, Copy, Debug, PartialEq, Eq, Structural)]
pub struct KeyEvent {
    pub code: KeyCode,
    /// The control key is held.
    pub control: bool,
    /// The key was pressed, not released or repeated.
    pub press: bool,
}

/// What a key asks for.
#[derive(Clone, Copy, Debug, PartialEq, Eq, Structural)]
pub enum KeyCommand {
    /// Tell the dashboard and the optimizer that the user wants to quit.
    Quit,
    /// Ask the optimizer to end the current phase.
    InterruptPhase,
    ScrollLogsUp(usize),
    ScrollLogsDown(usize),
    ShowLatestLog,
}

/// What a key asks for, if it asks for anything.
pub open spec fn key_command(key: KeyEvent) -> Option<KeyCommand> {
    if !key.press {
        None
    } else {
        match key.code {
            KeyCode::Esc => Some(KeyCommand::Quit),
            KeyCode::Char(c) => if c == 'q' {
                Some(KeyCommand::Quit)
            } else if c == 'c' && key.control {
                Some(KeyCommand::InterruptPhase)
            } else {
                None
            },
            KeyCode::Up => Some(KeyCommand::ScrollLogsUp(1)),
            KeyCode::Down => Some(KeyCommand::ScrollLogsDown(1)),
            KeyCode::PageUp => Some(KeyCommand::ScrollLogsUp(10)),
            KeyCode::PageDown => Some(KeyCommand::ScrollLogsDown(10)),
            KeyCode::Home => Some(KeyCommand::ScrollLogsUp(usize::MAX)),
            KeyCode::End => Some(KeyCommand::ShowLatestLog),
            KeyCode::Other => None,
        }
    }
}

/// What a key asks for, if it asks for anything.
pub fn handle_key(key: KeyEvent) -> (command: Option<KeyCommand>)
    ensures
        command == key_command(key),
{
    if !key.press {
        return None;
    }
    match key.code {
        KeyCode::Esc => Some(KeyCommand::Quit),
        KeyCode::Char(c) => if c == 'q' {
            Some(KeyCommand::Quit)
        } else if c == 'c' && key.control {
            Some(KeyCommand::InterruptPhase)
        } else {
            None
        },
        KeyCode::Up => Some(KeyCommand::ScrollLogsUp(1)),
        KeyCode::Down => Some(KeyCommand::ScrollLogsDown(1)),
        KeyCode::PageUp => Some(KeyCommand::ScrollLogsUp(10)),
        KeyCode::PageDown => Some(KeyCommand::ScrollLogsDown(10)),
        KeyCode::Home => Some(KeyCommand::ScrollLogsUp(usize::MAX)),
        KeyCode::End => Some(KeyCommand::ShowLatestLog),
        KeyCode::Other => None,
    }
}

/// How the optimizer's thread has ended.
pub enum WorkerOutcome<Sol> {
    Panicked,
    Failed(ConstructionError),
    Solved(Sol),
}

/// Why the loop ends without a solution. `E` is the type of errors of an export.
pub enum RunError<E> {
    WorkerPanicked,
    Construction(ConstructionError),
    Export(E),
}

/// What the loop is waiting for.
pub enum Waiting<Sol> {
    /// A new frame: the news have been passed on to the dashboard.
    Frame,
    /// The finished optimizer to be joined.
    Join,
    /// This solution to be exported.
    Export(Sol),
    /// The frame to be drawn.
    Draw,
    /// A key, or the end of the frame.
    Key,
    /// Nothing: the loop has ended.
    Nothing,
}

/// The loop of the dashboard.
pub struct DashboardRun<Sol> {
    /// The optimizer has not been joined yet.
    pub worker: bool,
    /// The solution, once it has been exported.
    pub solution: Option<Sol>,
    pub waiting: Waiting<Sol>,
}

/// What has happened.
pub enum RunEvent<Sol, E> {
    /// The news have been passed on; whether the optimizer's thread is finished.
    Frame { worker_finished: bool },
    /// The optimizer's thread was joined.
    Joined(WorkerOutcome<Sol>),
    /// The export of the final solution has ended.
    Exported(Result<(), E>),
    /// The frame was drawn; whether the user wants to quit.
    Drawn { quit_requested: bool },
    /// A key event, or none within the frame.
    Key(Option<KeyEvent>),
}

/// What is to be done.
pub enum RunCommand<E> {
    /// Join the optimizer's thread.
    Join,
    /// Export the solution that the loop is waiting for.
    Export,
    /// Tell the dashboard that the optimization is finished.
    FinishDashboard,
    /// Draw the dashboard.
    Draw,
    /// Wait for a key until the frame is over.
    PollKey,
    /// Do what a key asks for.
    Obey(KeyCommand),
    /// Pass the news on to the dashboard.
    NextFrame,
    /// Return the solution of the loop.
    Return,
    /// Return the error.
    Fail(RunError<E>),
}

impl<Sol> DashboardRun<Sol> {
    /// The loop is waiting for such an event.
    pub open spec fn accepts<E>(self, event: RunEvent<Sol, E>) -> bool {
        match event {
            RunEvent::Frame { .. } => self.waiting is Frame,
            RunEvent::Joined(_) => self.waiting is Join,
            RunEvent::Exported(_) => self.waiting is Export,
            RunEvent::Drawn { .. } => self.waiting is Draw,
            RunEvent::Key(_) => self.waiting is Key,
        }
    }

    /// The optimizer is joined at most once, and a solution is there only after that.
    pub open spec fn wf(self) -> bool {
        &&& self.solution is Some ==> !self.worker
        &&& self.waiting is Join || self.waiting is Export ==> !self.worker && self.solution is None
    }

    /// What an event makes of the loop, and what is to be done, in this order.
    pub open spec fn after<E>(self, event: RunEvent<Sol, E>) -> (
        DashboardRun<Sol>,
        Seq<RunCommand<E>>,
    ) {
        match event {
            RunEvent::Frame { worker_finished } => if self.worker && worker_finished {
                (
                    DashboardRun { worker: false, waiting: Waiting::Join, ..self },
                    seq![RunCommand::Join],
                )
            } else {
                (DashboardRun { waiting: Waiting::Draw, ..self }, seq![RunCommand::Draw])
            },
            RunEvent::Joined(WorkerOutcome::Panicked) => (
                DashboardRun { waiting: Waiting::Nothing, ..self },
                seq![RunCommand::Fail(RunError::WorkerPanicked)],
            ),
            RunEvent::Joined(WorkerOutcome::Failed(error)) => (
                DashboardRun { waiting: Waiting::Nothing, ..self },
                seq![RunCommand::Fail(RunError::Construction(error))],
            ),
            RunEvent::Joined(WorkerOutcome::Solved(solution)) => (
                DashboardRun { waiting: Waiting::Export(solution), ..self },
                seq![RunCommand::Export],
            ),
            RunEvent::Exported(Err(error)) => (
                DashboardRun { waiting: Waiting::Nothing, ..self },
                seq![RunCommand::Fail(RunError::Export(error))],
            ),
            RunEvent::Exported(Ok(())) => (
                DashboardRun {
                    solution: Some(self.waiting->Export_0),
                    waiting: Waiting::Draw,
                    ..self
                },
                seq![RunCommand::FinishDashboard, RunCommand::Draw],
            ),
            RunEvent::Drawn { quit_requested } => if quit_requested && self.solution is Some {
                (DashboardRun { waiting: Waiting::Nothing, ..self }, seq![RunCommand::Return])
            } else {
                (DashboardRun { waiting: Waiting::Key, ..self }, seq![RunCommand::PollKey])
            },
            RunEvent::Key(key) => (
                DashboardRun { waiting: Waiting::Frame, ..self },
                if key is Some && key_command(key->0) is Some {
                    seq![RunCommand::Obey(key_command(key->0)->0), RunCommand::NextFrame]
                } else {
                    seq![RunCommand::NextFrame]
                },
            ),
        }
    }

    /// The optimizer is running, and a frame begins.
    pub fn new() -> (run: Self)
        ensures
            run == (DashboardRun::<Sol> {
                worker: true,
                solution: None,
                waiting: Waiting::Frame,
            }),
            run.wf(),
    {
        DashboardRun { worker: true, solution: None, waiting: Waiting::Frame }
    }
}

/// Decides what follows from an event in the loop of the dashboard. The last command gives rise to the next
/// event, unless it ends the loop.
pub fn run_dashboard<Sol, E>(run: DashboardRun<Sol>, event: RunEvent<Sol, E>) -> (step: (
    DashboardRun<Sol>,
    Vec<RunCommand<E>>,
))
    requires
        run.wf(),
        run.accepts(event),
    ensures
        step.0.wf(),
        step.0 == run.after(event).0,
        step.1@ == run.after(event).1,
{
    let mut next = run;
    let mut commands: Vec<RunCommand<E>> = Vec::new();
    match event {
        RunEvent::Frame { worker_finished } => if next.worker && worker_finished {
            next.worker = false;
            next.waiting = Waiting::Join;
            commands.push(RunCommand::Join);
        } else {
            next.waiting = Waiting::Draw;
            commands.push(RunCommand::Draw);
        },
        RunEvent::Joined(outcome) => match outcome {
            WorkerOutcome::Panicked => {
                next.waiting = Waiting::Nothing;
                commands.push(RunCommand::Fail(RunError::WorkerPanicked));
            },
            WorkerOutcome::Failed(error) => {
                next.waiting = Waiting::Nothing;
                commands.push(RunCommand::Fail(RunError::Construction(error)));
            },
            WorkerOutcome::Solved(solution) => {
                next.waiting = Waiting::Export(solution);
                commands.push(RunCommand::Export);
            },
        },
        RunEvent::Exported(Err(error)) => {
            next.waiting = Waiting::Nothing;
            commands.push(RunCommand::Fail(RunError::Export(error)));
        },
        RunEvent::Exported(Ok(())) => {
            let DashboardRun { worker, solution: _, waiting } = next;
            let solution = match waiting {
                Waiting::Export(solution) => Some(solution),
                _ => None,
            };
            next = DashboardRun { worker, solution, waiting: Waiting::Draw };
            commands.push(RunCommand::FinishDashboard);
            commands.push(RunCommand::Draw);
        },
        RunEvent::Drawn { quit_requested } => if quit_requested && next.solution.is_some() {
            next.waiting = Waiting::Nothing;
            commands.push(RunCommand::Return);
        } else {
            next.waiting = Waiting::Key;
            commands.push(RunCommand::PollKey);
        },
        RunEvent::Key(key) => {
            if let Some(key) = key {
                if let Some(command) = handle_key(key) {
                    commands.push(RunCommand::Obey(command));
                }
            }
            next.waiting = Waiting::Frame;
            commands.push(RunCommand::NextFrame);
        },
    }
    (next, commands)
}

/// The loop returns exactly when a frame was drawn, the user wants to quit and there is a solution; a request to quit
/// before that is kept waiting for the solution.
pub proof fn law_returns_on_quit_with_solution<Sol, E>(
    run: DashboardRun<Sol>,
    event: RunEvent<Sol, E>,
)
    requires
        run.wf(),
        run.accepts(event),
    ensures
        run.after(event).1.contains(RunCommand::<E>::Return) <==> event
            == (RunEvent::<Sol, E>::Drawn { quit_requested: true }) && run.solution is Some,
        run.after(event).1.contains(RunCommand::<E>::Return) ==> run.after(event).0.solution
            == run.solution,
{
    let commands = run.after(event).1;
    if event == (RunEvent::<Sol, E>::Drawn { quit_requested: true }) && run.solution is Some {
        assert(commands[0] == RunCommand::<E>::Return);
    }
}

/// The solution is the one that the optimizer has ended with, and it has been exported by then. It does not change
/// afterwards, and the optimizer is never joined again.
pub proof fn law_solution_is_exported_and_kept<Sol, E>(
    run: DashboardRun<Sol>,
    event: RunEvent<Sol, E>,
)
    requires
        run.wf(),
        run.accepts(event),
    ensures
        run.after(event).0.wf(),
        run.solution is Some ==> run.after(event).0.solution == run.solution,
        run.solution is None && run.after(event).0.solution is Some ==> event is Exported
            && event->Exported_0 is Ok && run.waiting == Waiting::Export(
            run.after(event).0.solution->0,
        ),
        run.after(event).0.waiting is Export ==> event == RunEvent::<Sol, E>::Joined(
            WorkerOutcome::Solved(run.after(event).0.waiting->Export_0),
        ),
        !run.worker ==> !run.after(event).0.worker && !run.after(event).1.contains(
            RunCommand::<E>::Join,
        ),
{
}

/// The file of the final solution of an instance.
pub open spec fn final_path(output_dir: Seq<char>, name: Seq<char>, extension: Seq<char>) -> Seq<
    char,
> {
    output_dir + "/final_"@ + name + extension
}

/// The files that the final solution is exported to: the drawing, and the solution itself.
pub fn export_final_solution(output_dir: &str, name: &str) -> (paths: (String, String))
    ensures
        paths.0@ == final_path(output_dir@, name@, ".svg"@),
        paths.1@ == final_path(output_dir@, name@, ".json"@),
        paths.0@ == output_dir@ + "/final_"@ + name@ + ".svg"@,
        paths.1@ == output_dir@ + "/final_"@ + name@ + ".json"@,
{
    let mut svg_path = output_dir.to_string();
    svg_path.append("/final_");
    svg_path.append(name);
    svg_path.append(".svg");
    let mut json_path = output_dir.to_string();
    json_path.append("/final_");
    json_path.append(name);
    json_path.append(".json");
    (svg_path, json_path)
}

/// What keys ask for. Only a press counts. Esc and `q` quit, control and `c` interrupt the phase, the arrows scroll the
/// logs by a line, the page keys by ten, Home goes to the first log and End to the latest. No other key asks for
/// anything, and the control key makes a difference for `c` alone.
pub proof fn law_keys_ask_for_what_they_say(code: KeyCode, control: bool)
    ensures
        key_command(KeyEvent { code, control, press: false }) is None,
        code is Esc || code == KeyCode::Char('q') ==> key_command(
            KeyEvent { code, control, press: true },
        ) == Some(KeyCommand::Quit),
        key_command(KeyEvent { code: KeyCode::Char('c'), control: true, press: true }) == Some(
            KeyCommand::InterruptPhase,
        ),
        key_command(KeyEvent { code: KeyCode::Char('c'), control: false, press: true }) is None,
        key_command(KeyEvent { code: KeyCode::Up, control, press: true }) == Some(
            KeyCommand::ScrollLogsUp(1),
        ),
        key_command(KeyEvent { code: KeyCode::Down, control, press: true }) == Some(
            KeyCommand::ScrollLogsDown(1),
        ),
        key_command(KeyEvent { code: KeyCode::PageUp, control, press: true }) == Some(
            KeyCommand::ScrollLogsUp(10),
        ),
        key_command(KeyEvent { code: KeyCode::PageDown, control, press: true }) == Some(
            KeyCommand::ScrollLogsDown(10),
        ),
        key_command(KeyEvent { code: KeyCode::Home, control, press: true }) == Some(
            KeyCommand::ScrollLogsUp(usize::MAX),
        ),
        key_command(KeyEvent { code: KeyCode::End, control, press: true }) == Some(
            KeyCommand::ShowLatestLog,
        ),
        code is Other || (code is Char && code->Char_0 != 'q' && code->Char_0 != 'c')
            ==> key_command(KeyEvent { code, control, press: true }) is None,
{
}

/// Every key that asks for something is obeyed, before the next frame begins, and no other key does anything. In
/// particular a press of Esc or `q` quits, and control and `c` interrupts the phase.
pub proof fn law_keys_are_obeyed<Sol, E>(run: DashboardRun<Sol>, key: KeyEvent)
    requires
        run.accepts(RunEvent::<Sol, E>::Key(Some(key))),
    ensures
        key_command(key) matches Some(command) ==> run.after(
            RunEvent::<Sol, E>::Key(Some(key)),
        ).1 == seq![RunCommand::<E>::Obey(command), RunCommand::NextFrame],
        key_command(key) is None ==> run.after(RunEvent::<Sol, E>::Key(Some(key))).1
            == seq![RunCommand::<E>::NextFrame],
        key.press && (key.code is Esc || key.code == KeyCode::Char('q')) ==> run.after(
            RunEvent::<Sol, E>::Key(Some(key)),
        ).1 == seq![RunCommand::<E>::Obey(KeyCommand::Quit), RunCommand::NextFrame],
        key.press && key.control && key.code == KeyCode::Char('c') ==> run.after(
            RunEvent::<Sol, E>::Key(Some(key)),
        ).1 == seq![RunCommand::<E>::Obey(KeyCommand::InterruptPhase), RunCommand::NextFrame],
        !key.press ==> run.after(RunEvent::<Sol, E>::Key(Some(key))).1
            == seq![RunCommand::<E>::NextFrame],
        run.after(RunEvent::<Sol, E>::Key(None)).1 == seq![RunCommand::<E>::NextFrame],
{
    law_keys_ask_for_what_they_say(key.code, key.control);
}

/// In every frame a finished optimizer is joined first, once, and otherwise the frame is drawn.
pub proof fn law_finished_optimizer_is_joined<Sol, E>(
    run: DashboardRun<Sol>,
    worker_finished: bool,
)
    requires
        run.wf(),
        run.accepts(RunEvent::<Sol, E>::Frame { worker_finished }),
    ensures
        run.worker && worker_finished ==> run.after(
            RunEvent::<Sol, E>::Frame { worker_finished },
        ).1 == seq![RunCommand::<E>::Join] && !run.after(
            RunEvent::<Sol, E>::Frame { worker_finished },
        ).0.worker,
        !(run.worker && worker_finished) ==> run.after(
            RunEvent::<Sol, E>::Frame { worker_finished },
        ).1 == seq![RunCommand::<E>::Draw] && run.after(
            RunEvent::<Sol, E>::Frame { worker_finished },
        ).0.worker == run.worker,
        run.after(RunEvent::<Sol, E>::Frame { worker_finished }).0.solution == run.solution,
{
}

/// A solution that the optimizer has ended with is exported, and then it is the solution of the loop, the dashboard is
/// told that the optimization is finished, and the frame is drawn.
pub proof fn law_solution_is_exported_then_shown<Sol, E>(
    run: DashboardRun<Sol>,
    solution: Sol,
    joined: DashboardRun<Sol>,
)
    requires
        run.wf(),
        run.accepts(RunEvent::<Sol, E>::Joined(WorkerOutcome::Solved(solution))),
        joined == run.after(RunEvent::<Sol, E>::Joined(WorkerOutcome::Solved(solution))).0,
    ensures
        run.after(RunEvent::<Sol, E>::Joined(WorkerOutcome::Solved(solution))).1
            == seq![RunCommand::<E>::Export],
        joined.solution == run.solution,
        joined.waiting == Waiting::Export(solution),
        joined.accepts(RunEvent::<Sol, E>::Exported(Ok(()))),
        joined.after(RunEvent::<Sol, E>::Exported(Ok(()))).1
            == seq![RunCommand::<E>::FinishDashboard, RunCommand::Draw],
        joined.after(RunEvent::<Sol, E>::Exported(Ok(()))).0.solution == Some(solution),
{
}

/// A failure ends the loop with its own error: a panic of the optimizer, the error that it has ended with, or that of
/// the export. The loop then waits for nothing, and there is no solution of the loop.
pub proof fn law_failures_end_the_loop<Sol, E>(
    run: DashboardRun<Sol>,
    construction: ConstructionError,
    export: E,
    later: RunEvent<Sol, E>,
)
    requires
        run.wf(),
    ensures
        run.waiting is Join ==> {
            &&& run.after(RunEvent::<Sol, E>::Joined(WorkerOutcome::Panicked)).1
                == seq![RunCommand::<E>::Fail(RunError::WorkerPanicked)]
            &&& !run.after(RunEvent::<Sol, E>::Joined(WorkerOutcome::Panicked)).0.accepts(later)
            &&& run.after(RunEvent::<Sol, E>::Joined(WorkerOutcome::Failed(construction))).1
                == seq![RunCommand::<E>::Fail(RunError::Construction(construction))]
            &&& !run.after(
                RunEvent::<Sol, E>::Joined(WorkerOutcome::Failed(construction)),
            ).0.accepts(later)
        },
        run.waiting is Export ==> {
            &&& run.after(RunEvent::<Sol, E>::Exported(Err(export))).1
                == seq![RunCommand::<E>::Fail(RunError::Export(export))]
            &&& run.after(RunEvent::<Sol, E>::Exported(Err(export))).0.solution is None
            &&& !run.after(RunEvent::<Sol, E>::Exported(Err(export))).0.accepts(later)
        },
{
}

/// The loop goes round: after a frame is drawn a key is waited for, unless the loop returns; after the key the next frame
/// begins. What is waited for is what the last command gives rise to.
pub proof fn law_loop_goes_round<Sol, E>(
    run: DashboardRun<Sol>,
    event: RunEvent<Sol, E>,
    later: RunEvent<Sol, E>,
)
    requires
        run.wf(),
        run.accepts(event),
    ensures
        run.after(event).1.len() > 0,
        event !is Frame ==> run.after(event).0.worker == run.worker,
        event is Key || event is Drawn ==> run.after(event).0.solution == run.solution,
        event is Drawn && !(event->quit_requested && run.solution is Some) ==> run.after(event).1
            == seq![RunCommand::<E>::PollKey],
        event is Drawn && event->quit_requested && run.solution is Some ==> run.after(event).1
            == seq![RunCommand::<E>::Return],
        run.after(event).1.last() is Join ==> (run.after(event).0.accepts(later) <==> later is Joined),
        run.after(event).1.last() is Export ==> (run.after(event).0.accepts(later)
            <==> later is Exported),
        run.after(event).1.last() is Draw ==> (run.after(event).0.accepts(later) <==> later is Drawn),
        run.after(event).1.last() is PollKey ==> (run.after(event).0.accepts(later)
            <==> later is Key),
        run.after(event).1.last() is NextFrame ==> (run.after(event).0.accepts(later)
            <==> later is Frame),
        run.after(event).1.last() is Return || run.after(event).1.last() is Fail ==> !run.after(
            event,
        ).0.accepts(later),
{
}

/// The files of the final solution are in the output directory, and two instances never share one: the name of the
/// instance can be read off the path.
pub proof fn law_paths_tell_instances_apart(
    output_dir: Seq<char>,
    name: Seq<char>,
    other: Seq<char>,
    extension: Seq<char>,
)
    ensures
        final_path(output_dir, name, extension) == output_dir + "/final_"@ + name + extension,
        final_path(output_dir, name, extension) == final_path(output_dir, other, extension)
            ==> name == other,
{
    let a = final_path(output_dir, name, extension);
    let b = final_path(output_dir, other, extension);
    if a == b {
        let n = output_dir.len() + "/final_"@.len();
        assert(a.len() == n + name.len() + extension.len());
        assert(b.len() == n + other.len() + extension.len());
        assert forall|i: int| 0 <= i < name.len() implies name[i] == other[i] by {
            assert(a[n + i] == name[i]);
            assert(b[n + i] == other[i]);
        }
        assert(name =~= other);
    }
}

/// The loop begins with a frame, while the optimizer is running.
pub proof fn law_loop_begins_with_a_frame<Sol, E>(event: RunEvent<Sol, E>)
    ensures
        (DashboardRun::<Sol> { worker: true, solution: None, waiting: Waiting::Frame }).accepts(event)
            <==> event is Frame,
        (DashboardRun::<Sol> { worker: true, solution: None, waiting: Waiting::Frame }).wf(),
{
}

} // verus!
