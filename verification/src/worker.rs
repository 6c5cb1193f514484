use vstd::prelude::*;
use vstd::string::StringExecFns;

verus! {

/// One worker of a pool: its number and the halt mode it obeys
/// (0 never, 1 lazy, 2 eager).
pub struct Worker {
    worker_id: i32,
    mode: i32,
}

pub struct WorkerView {
    pub id: i32,
    pub mode: i32,
}

impl View for Worker {
    type V = WorkerView;

    closed spec fn view(&self) -> WorkerView {
        WorkerView { id: self.worker_id, mode: self.mode }
    }
}

/// Halt mode "eager": once the pool is told to stop, no further command starts.
pub open spec fn is_eager(mode: i32) -> bool {
    mode == 2
}

/// Halt modes "lazy" and "eager": a failing command tells the pool to stop.
pub open spec fn halts_on_failure(mode: i32) -> bool {
    mode != 0
}

/// Where a worker stands in its loop.
pub enum WorkerState {
    /// At the top of the loop: the run flag is to be read.
    Idle,
    /// The flag allowed another line: a line is to be received.
    Waiting,
    /// Command `next` of `line` comes next; the flag is read before it starts.
    /// `outputs` holds what the commands before it printed.
    Running { line: Vec<Vec<String>>, next: usize, outputs: Vec<String> },
    /// Command `next` of `line` has been started.
    Launched { line: Vec<Vec<String>>, next: usize, outputs: Vec<String> },
    /// The line is over: its outputs are to be shown together; `halt` says
    /// whether a failure stopped the pool.
    Reporting { outputs: Vec<String>, halt: bool },
    /// The worker has left its loop.
    Stopped,
}

/// What the outside world tells a worker.
pub enum WorkerEvent {
    /// The value of the shared run flag.
    Flag(bool),
    /// A line of commands came in.
    Line(Vec<Vec<String>>),
    /// The line channel is closed.
    Closed,
    /// The started command ended: its exit code (none when a signal ended
    /// it) and what it printed.
    Finished { code: Option<i32>, stdout: String },
    /// The outputs of a line have been shown.
    Reported,
}

/// What a worker asks the outside world to do next.
pub enum WorkerAction {
    /// Read the shared run flag.
    CheckFlag,
    /// Receive the next line of commands.
    Receive,
    /// Run this command (program, then its arguments).
    Launch(Vec<String>),
    /// Clear the shared run flag first when `clear_flag` holds, then show the outputs.
    Report { outputs: Vec<String>, clear_flag: bool },
    /// Leave the loop.
    Exit,
}

pub enum StateView {
    Idle,
    Waiting,
    Running { line: Seq<Seq<Seq<char>>>, next: int, outputs: Seq<Seq<char>> },
    Launched { line: Seq<Seq<Seq<char>>>, next: int, outputs: Seq<Seq<char>> },
    Reporting { outputs: Seq<Seq<char>>, halt: bool },
    Stopped,
}

pub enum EventView {
    Flag(bool),
    Line(Seq<Seq<Seq<char>>>),
    Closed,
    Finished { code: Option<i32>, stdout: Seq<char> },
    Reported,
}

pub enum ActionView {
    CheckFlag,
    Receive,
    Launch(Seq<Seq<char>>),
    Report { outputs: Seq<Seq<char>>, clear_flag: bool },
    Exit,
}

impl View for WorkerState {
    type V = StateView;

    open spec fn view(&self) -> StateView {
        match self {
            WorkerState::Idle => StateView::Idle,
            WorkerState::Waiting => StateView::Waiting,
            WorkerState::Running { line, next, outputs } => StateView::Running {
                line: line.deep_view(),
                next: *next as int,
                outputs: outputs.deep_view(),
            },
            WorkerState::Launched { line, next, outputs } => StateView::Launched {
                line: line.deep_view(),
                next: *next as int,
                outputs: outputs.deep_view(),
            },
            WorkerState::Reporting { outputs, halt } => StateView::Reporting {
                outputs: outputs.deep_view(),
                halt: *halt,
            },
            WorkerState::Stopped => StateView::Stopped,
        }
    }
}

impl View for WorkerEvent {
    type V = EventView;

    open spec fn view(&self) -> EventView {
        match self {
            WorkerEvent::Flag(b) => EventView::Flag(*b),
            WorkerEvent::Line(l) => EventView::Line(l.deep_view()),
            WorkerEvent::Closed => EventView::Closed,
            WorkerEvent::Finished { code, stdout } => EventView::Finished {
                code: *code,
                stdout: stdout@,
            },
            WorkerEvent::Reported => EventView::Reported,
        }
    }
}

impl View for WorkerAction {
    type V = ActionView;

    open spec fn view(&self) -> ActionView {
        match self {
            WorkerAction::CheckFlag => ActionView::CheckFlag,
            WorkerAction::Receive => ActionView::Receive,
            WorkerAction::Launch(cmd) => ActionView::Launch(cmd.deep_view()),
            WorkerAction::Report { outputs, clear_flag } => ActionView::Report {
                outputs: outputs.deep_view(),
                clear_flag: *clear_flag,
            },
            WorkerAction::Exit => ActionView::Exit,
        }
    }
}

/// A state whose position lies inside its line.
pub open spec fn well_formed(s: StateView) -> bool {
    match s {
        StateView::Running { line, next, .. } => 0 <= next < line.len(),
        StateView::Launched { line, next, .. } => 0 <= next < line.len(),
        _ => true,
    }
}

/// What a worker in state `s` asks for.
pub open spec fn pending(s: StateView) -> ActionView {
    match s {
        StateView::Idle => ActionView::CheckFlag,
        StateView::Waiting => ActionView::Receive,
        StateView::Running { .. } => ActionView::CheckFlag,
        StateView::Launched { line, next, .. } => ActionView::Launch(line[next]),
        StateView::Reporting { outputs, halt } => ActionView::Report { outputs, clear_flag: halt },
        StateView::Stopped => ActionView::Exit,
    }
}

/// Go on with command `next` of a line, or report when none is left.
pub open spec fn go_on(line: Seq<Seq<Seq<char>>>, next: int, outputs: Seq<Seq<char>>) -> StateView {
    if next < line.len() {
        StateView::Running { line, next, outputs }
    } else {
        StateView::Reporting { outputs, halt: false }
    }
}

/// The state a worker of halt mode `mode` moves to from `s` on event `e`.
/// An event that the state does not wait for leaves it as it is.
pub open spec fn next_state(mode: i32, s: StateView, e: EventView) -> StateView {
    match s {
        StateView::Idle => match e {
            EventView::Flag(run) => if run { StateView::Waiting } else { StateView::Stopped },
            _ => s,
        },
        StateView::Waiting => match e {
            EventView::Line(line) => go_on(line, 0, Seq::empty()),
            EventView::Closed => StateView::Stopped,
            _ => s,
        },
        StateView::Running { line, next, outputs } => match e {
            EventView::Flag(run) => if !run && is_eager(mode) {
                StateView::Reporting { outputs, halt: false }
            } else {
                StateView::Launched { line, next, outputs }
            },
            _ => s,
        },
        StateView::Launched { line, next, outputs } => match e {
            EventView::Finished { code, stdout } => match code {
                Some(c) => if c != 0 {
                    StateView::Reporting { outputs, halt: halts_on_failure(mode) }
                } else {
                    go_on(line, next + 1, outputs.push(stdout))
                },
                None => go_on(line, next + 1, outputs),
            },
            _ => s,
        },
        StateView::Reporting { halt, .. } => match e {
            EventView::Reported => if halt { StateView::Stopped } else { StateView::Idle },
            _ => s,
        },
        StateView::Stopped => s,
    }
}

/// A copy of a list of strings.
fn copy_strings(v: &Vec<String>) -> (res: Vec<String>)
    ensures
        res.deep_view() == v.deep_view(),
{
    let mut res: Vec<String> = Vec::new();
    let mut i: usize = 0;
    while i < v.len()
        invariant
            i <= v.len(),
            res.deep_view() =~= v.deep_view().take(i as int),
        decreases v.len() - i,
    {
        let c = v[i].clone();
        let ghost before = res.deep_view();
        res.push(c);
        assert(res.deep_view() =~= before.push(v@[i as int]@));
        assert(v.deep_view().take(i + 1) =~= v.deep_view().take(i as int).push(v@[i as int]@));
        i = i + 1;
    }
    assert(v.deep_view().take(v.len() as int) =~= v.deep_view());
    res
}

/// What a worker in `state` asks for.
pub fn action_of(state: &WorkerState) -> (a: WorkerAction)
    requires
        well_formed(state@),
    ensures
        a@ == pending(state@),
{
    match state {
        WorkerState::Idle => WorkerAction::CheckFlag,
        WorkerState::Waiting => WorkerAction::Receive,
        WorkerState::Running { .. } => WorkerAction::CheckFlag,
        WorkerState::Launched { line, next, .. } => WorkerAction::Launch(copy_strings(&line[*next])),
        WorkerState::Reporting { outputs, halt } => WorkerAction::Report {
            outputs: copy_strings(outputs),
            clear_flag: *halt,
        },
        WorkerState::Stopped => WorkerAction::Exit,
    }
}

fn go_on_exec(line: Vec<Vec<String>>, next: usize, outputs: Vec<String>) -> (s: WorkerState)
    requires
        next <= line.len(),
    ensures
        s@ == go_on(line.deep_view(), next as int, outputs.deep_view()),
        well_formed(s@),
{
    if next < line.len() {
        WorkerState::Running { line, next, outputs }
    } else {
        WorkerState::Reporting { outputs, halt: false }
    }
}

impl Worker {
    pub fn new(id: i32, halt_mode: i32) -> (w: Worker)
        ensures
            w@ == (WorkerView { id, mode: halt_mode }),
    {
        Worker { worker_id: id, mode: halt_mode }
    }

    /// The worker's number.
    pub fn id(&self) -> (id: i32)
        ensures
            id == self@.id,
    {
        self.worker_id
    }

    /// The worker's halt mode.
    pub fn mode(&self) -> (m: i32)
        ensures
            m == self@.mode,
    {
        self.mode
    }

    /// Where a worker starts: at the top of its loop, reading the run flag.
    pub fn start(&self) -> (res: (WorkerState, WorkerAction))
        ensures
            res.0@ == StateView::Idle,
            res.1@ == ActionView::CheckFlag,
    {
        (WorkerState::Idle, WorkerAction::CheckFlag)
    }

    /// One step of the worker's loop: the state that `event` leads to from
    /// `state`, and what the worker asks for there.
    pub fn step(&self, state: WorkerState, event: WorkerEvent) -> (res: (WorkerState, WorkerAction))
        requires
            well_formed(state@),
        ensures
            res.0@ == next_state(self@.mode, state@, event@),
            res.1@ == pending(res.0@),
            well_formed(res.0@),
    {
        let ghost s = state@;
        let ghost e = event@;

        let new_state = match state {
            WorkerState::Idle => match event {
                WorkerEvent::Flag(run) => if run {
                    WorkerState::Waiting
                } else {
                    WorkerState::Stopped
                },
                _ => WorkerState::Idle,
            },
            WorkerState::Waiting => match event {
                WorkerEvent::Line(line) => {
                    let outputs: Vec<String> = Vec::new();
                    assert(outputs.deep_view() =~= Seq::<Seq<char>>::empty());
                    go_on_exec(line, 0, outputs)
                },
                WorkerEvent::Closed => WorkerState::Stopped,
                _ => WorkerState::Waiting,
            },
            WorkerState::Running { line, next, outputs } => match event {
                WorkerEvent::Flag(run) => if !run && self.mode == 2 {
                    WorkerState::Reporting { outputs, halt: false }
                } else {
                    WorkerState::Launched { line, next, outputs }
                },
                _ => WorkerState::Running { line, next, outputs },
            },
            WorkerState::Launched { line, next, outputs } => match event {
                WorkerEvent::Finished { code, stdout } => {
                    assert(line.deep_view().len() == line.len());
                    match code {
                        Some(c) => if c != 0 {
                            WorkerState::Reporting { outputs, halt: self.mode != 0 }
                        } else {
                            let mut outputs = outputs;
                            let ghost before = outputs.deep_view();
                            outputs.push(stdout);
                            assert(outputs.deep_view() =~= before.push(e->stdout));
                            go_on_exec(line, next + 1, outputs)
                        },
                        None => go_on_exec(line, next + 1, outputs),
                    }
                },
                _ => WorkerState::Launched { line, next, outputs },
            },
            WorkerState::Reporting { outputs, halt } => match event {
                WorkerEvent::Reported => if halt {
                    WorkerState::Stopped
                } else {
                    WorkerState::Idle
                },
                _ => WorkerState::Reporting { outputs, halt },
            },
            WorkerState::Stopped => WorkerState::Stopped,
        };
        let action = action_of(&new_state);
        (new_state, action)
    }
}

/// The text a remote worker sends back for one output.
pub open spec fn remote_text(out: Seq<char>) -> Seq<char> {
    "[REMOTE] "@ + out
}

/// The lines a worker shows for the outputs of a command line: on the local
/// machine the outputs themselves; on a remote one each marked `[REMOTE] `.
pub fn report_lines(outputs: &Vec<String>, on_local: bool) -> (res: Vec<String>)
    ensures
        res.len() == outputs.len(),
        forall|i: int| 0 <= i < outputs.len() ==>
            #[trigger] res@[i]@ == if on_local { outputs@[i]@ } else { remote_text(outputs@[i]@) },
{
    let mut res: Vec<String> = Vec::new();
    let mut i: usize = 0;
    while i < outputs.len()
        invariant
            i <= outputs.len(),
            res.len() == i,
            forall|j: int| 0 <= j < i ==>
                #[trigger] res@[j]@ == if on_local { outputs@[j]@ } else { remote_text(outputs@[j]@) },
        decreases outputs.len() - i,
    {
        let line = if on_local {
            outputs[i].clone()
        } else {
            String::from_str("[REMOTE] ").concat(outputs[i].as_str())
        };
        res.push(line);
        i = i + 1;
    }
    res
}

/// The workers of a pool of `n_workers`, numbered from 1, all with halt mode `mode`.
pub fn build_workers(n_workers: i32, mode: i32) -> (res: Vec<Worker>)
    ensures
        res.len() == if n_workers > 0 { n_workers as int } else { 0 },
        forall|i: int| 0 <= i < res.len() ==> #[trigger] res@[i]@ == (WorkerView { id: (i + 1) as i32, mode }),
{
    let mut res: Vec<Worker> = Vec::new();
    let mut i: i32 = 0;
    while i < n_workers
        invariant
            0 <= i,
            n_workers > 0 ==> i <= n_workers,
            n_workers <= 0 ==> i == 0,
            res.len() == i,
            forall|j: int| 0 <= j < res.len() ==> #[trigger] res@[j]@ == (WorkerView { id: (j + 1) as i32, mode }),
        decreases n_workers - i,
    {
        res.push(Worker::new(i + 1, mode));
        i = i + 1;
    }
    res
}

// ---------------------------------------------------------------------------
// Laws of the worker loop
// ---------------------------------------------------------------------------

/// The state a worker of halt mode `mode` reaches from `s` through the events `es`.
pub open spec fn run(mode: i32, s: StateView, es: Seq<EventView>) -> StateView
    decreases es.len(),
{
    if es.len() == 0 {
        s
    } else {
        run(mode, next_state(mode, s, es[0]), es.drop_first())
    }
}

pub proof fn lemma_run_append(mode: i32, s: StateView, a: Seq<EventView>, b: Seq<EventView>)
    ensures
        run(mode, s, a + b) == run(mode, run(mode, s, a), b),
    decreases a.len(),
{
    if a.len() > 0 {
        assert((a + b).drop_first() =~= a.drop_first() + b);
        lemma_run_append(mode, next_state(mode, s, a[0]), a.drop_first(), b);
    } else {
        assert(a + b =~= b);
    }
}

/// The events of a line whose commands all succeed and print `outs`, while
/// the run flag stays up.
pub open spec fn successes(outs: Seq<Seq<char>>) -> Seq<EventView>
    decreases outs.len(),
{
    if outs.len() == 0 {
        Seq::empty()
    } else {
        seq![
            EventView::Flag(true),
            EventView::Finished { code: Some(0i32), stdout: outs[0] },
        ] + successes(outs.drop_first())
    }
}

proof fn lemma_successes_from(mode: i32, line: Seq<Seq<Seq<char>>>, k: int, o: Seq<Seq<char>>, outs: Seq<Seq<char>>)
    requires
        0 <= k <= line.len(),
        outs.len() == line.len() - k,
    ensures
        run(mode, go_on(line, k, o), successes(outs)) == (StateView::Reporting { outputs: o + outs, halt: false }),
    decreases outs.len(),
{
    if outs.len() == 0 {
        assert(o + outs =~= o);
    } else {
        let first = seq![
            EventView::Flag(true),
            EventView::Finished { code: Some(0i32), stdout: outs[0] },
        ];
        lemma_run_append(mode, go_on(line, k, o), first, successes(outs.drop_first()));
        let s1 = next_state(mode, go_on(line, k, o), first[0]);
        assert(s1 == StateView::Launched { line, next: k, outputs: o });
        let rest1 = first.drop_first();
        assert(rest1[0] == first[1]);
        assert(rest1.drop_first() =~= Seq::<EventView>::empty());
        let s2 = next_state(mode, s1, rest1[0]);
        assert(s2 == go_on(line, k + 1, o.push(outs[0])));
        assert(run(mode, s2, rest1.drop_first()) == s2);
        assert(run(mode, s1, rest1) == s2);
        assert(run(mode, go_on(line, k, o), first) == s2);
        lemma_successes_from(mode, line, k + 1, o.push(outs[0]), outs.drop_first());
        assert(o.push(outs[0]) + outs.drop_first() =~= o + outs);
    }
}

/// Law: the outputs of a line are shown together, in the order of its
/// commands. A worker that receives a line whose commands all succeed, while
/// the run flag stays up, reports exactly what they printed, in order, and
/// does not halt.
pub proof fn law_outputs_in_order(mode: i32, line: Seq<Seq<Seq<char>>>, outs: Seq<Seq<char>>)
    requires
        outs.len() == line.len(),
    ensures
        run(mode, StateView::Waiting, seq![EventView::Line(line)] + successes(outs))
            == (StateView::Reporting { outputs: outs, halt: false }),
{
    lemma_run_append(mode, StateView::Waiting, seq![EventView::Line(line)], successes(outs));
    let one = seq![EventView::Line(line)];
    assert(one.drop_first() =~= Seq::<EventView>::empty());
    assert(one[0] == EventView::Line(line));
    let s1 = next_state(mode, StateView::Waiting, one[0]);
    assert(s1 == go_on(line, 0, Seq::empty()));
    assert(run(mode, s1, one.drop_first()) == s1);
    assert(run(mode, StateView::Waiting, one) == go_on(line, 0, Seq::empty()));
    lemma_successes_from(mode, line, 0, Seq::empty(), outs);
    assert(Seq::<Seq<char>>::empty() + outs =~= outs);
}

/// Law: a failing command ends its line. The outputs shown are those of the
/// commands before it, the rest of the line does not run, the run flag is
/// cleared exactly in the lazy and eager modes, and then the worker stops in
/// those modes and goes back to the top of its loop in mode never.
pub proof fn law_failure_ends_line(
    mode: i32,
    line: Seq<Seq<Seq<char>>>,
    next: int,
    outputs: Seq<Seq<char>>,
    code: i32,
    stdout: Seq<char>,
)
    requires
        code != 0,
    ensures
        ({
            let s = next_state(
                mode,
                StateView::Launched { line, next, outputs },
                EventView::Finished { code: Some(code), stdout },
            );
            &&& pending(s) == (ActionView::Report { outputs, clear_flag: halts_on_failure(mode) })
            &&& next_state(mode, s, EventView::Reported) == if halts_on_failure(mode) {
                StateView::Stopped
            } else {
                StateView::Idle
            }
        }),
{
}

/// Law: in eager mode a worker that reads a lowered run flag starts no
/// further command.
pub proof fn law_eager_obeys_flag(mode: i32, s: StateView)
    requires
        is_eager(mode),
        pending(s) == ActionView::CheckFlag,
    ensures
        !(pending(next_state(mode, s, EventView::Flag(false))) is Launch),
{
}

/// Law: in lazy mode (and in mode never) a lowered run flag does not cut a
/// line short: the worker still starts the next command of the line it holds.
pub proof fn law_lazy_finishes_line(
    mode: i32,
    line: Seq<Seq<Seq<char>>>,
    next: int,
    outputs: Seq<Seq<char>>,
)
    requires
        !is_eager(mode),
        0 <= next < line.len(),
    ensures
        pending(next_state(mode, StateView::Running { line, next, outputs }, EventView::Flag(false)))
            == ActionView::Launch(line[next]),
{
}

/// Law: a worker that reads a lowered run flag at the top of its loop leaves it.
pub proof fn law_lowered_flag_stops(mode: i32)
    ensures
        next_state(mode, StateView::Idle, EventView::Flag(false)) == StateView::Stopped,
        pending(StateView::Stopped) == ActionView::Exit,
{
}

/// Law: a worker that has stopped stays stopped, whatever happens.
pub proof fn law_stopped_stays(mode: i32, es: Seq<EventView>)
    ensures
        run(mode, StateView::Stopped, es) == StateView::Stopped,
    decreases es.len(),
{
    if es.len() > 0 {
        law_stopped_stays(mode, es.drop_first());
    }
}

/// No pending report of a worker in mode never clears the run flag.
pub open spec fn never_clears(mode: i32, s: StateView) -> bool {
    mode == 0 ==> !(s matches StateView::Reporting { halt: true, .. })
}

/// Law: in mode never a worker never lowers the run flag: starting from the
/// top of its loop, whatever it is told, it never asks to clear the flag.
pub proof fn law_never_mode_keeps_flag(s: StateView, es: Seq<EventView>)
    requires
        never_clears(0, s),
    ensures
        never_clears(0, run(0, s, es)),
        !(pending(run(0, s, es)) matches ActionView::Report { clear_flag: true, .. }),
    decreases es.len(),
{
    if es.len() > 0 {
        law_never_mode_keeps_flag(next_state(0, s, es[0]), es.drop_first());
    }
}

/// Law: every step keeps a worker's position inside its line.
pub proof fn law_steps_stay_well_formed(mode: i32, s: StateView, es: Seq<EventView>)
    requires
        well_formed(s),
    ensures
        well_formed(run(mode, s, es)),
    decreases es.len(),
{
    if es.len() > 0 {
        law_steps_stay_well_formed(mode, next_state(mode, s, es[0]), es.drop_first());
    }
}

/// Law: a line that ends without failure never stops a worker, whatever its
/// halt mode: once its outputs are shown, the worker is back at the top of its
/// loop, reading the run flag before it takes the next line.
pub proof fn law_success_goes_on(mode: i32, outputs: Seq<Seq<char>>)
    ensures
        next_state(mode, StateView::Reporting { outputs, halt: false }, EventView::Reported) == StateView::Idle,
        pending(next_state(mode, StateView::Reporting { outputs, halt: false }, EventView::Reported))
            == ActionView::CheckFlag,
{
}

/// Law: in every halt mode, a worker that receives a line whose commands all
/// succeed, shows their outputs and is back at the top of its loop.
pub proof fn law_successful_line_returns(mode: i32, line: Seq<Seq<Seq<char>>>, outs: Seq<Seq<char>>)
    requires
        outs.len() == line.len(),
    ensures
        run(mode, StateView::Waiting, seq![EventView::Line(line)] + successes(outs) + seq![EventView::Reported])
            == StateView::Idle,
{
    law_outputs_in_order(mode, line, outs);
    let a = seq![EventView::Line(line)] + successes(outs);
    let b = seq![EventView::Reported];
    lemma_run_append(mode, StateView::Waiting, a, b);
    assert(b.drop_first() =~= Seq::<EventView>::empty());
    let s = run(mode, StateView::Waiting, a);
    assert(run(mode, next_state(mode, s, b[0]), b.drop_first()) == next_state(mode, s, b[0]));
}

/// Law: only a failing command stops a worker that has a line to report:
/// after showing the outputs of a line, the worker stops exactly when the
/// report cleared the run flag, which happens only in lazy and eager mode.
pub proof fn law_only_failure_stops(mode: i32, outputs: Seq<Seq<char>>, halt: bool)
    ensures
        (next_state(mode, StateView::Reporting { outputs, halt }, EventView::Reported) == StateView::Stopped)
            <==> pending(StateView::Reporting { outputs, halt }) == (ActionView::Report { outputs, clear_flag: true }),
{
}

/// Law: with the run flag up, a worker in any halt mode starts the very
/// command of its line that comes next.
pub proof fn law_flag_up_launches_next(mode: i32, line: Seq<Seq<Seq<char>>>, next: int, outputs: Seq<Seq<char>>)
    requires
        0 <= next < line.len(),
    ensures
        pending(next_state(mode, StateView::Running { line, next, outputs }, EventView::Flag(true)))
            == ActionView::Launch(line[next]),
{
}

/// Law: a command that exits with code 0 adds what it printed after the
/// outputs so far; one that a signal ended adds nothing. Either way the line
/// goes on with the following command, or is reported when none is left.
pub proof fn law_finished_command_goes_on(
    mode: i32,
    line: Seq<Seq<Seq<char>>>,
    next: int,
    outputs: Seq<Seq<char>>,
    stdout: Seq<char>,
)
    requires
        0 <= next < line.len(),
    ensures
        ({
            let launched = StateView::Launched { line, next, outputs };
            let ok = next_state(mode, launched, EventView::Finished { code: Some(0i32), stdout });
            let killed = next_state(mode, launched, EventView::Finished { code: None, stdout });
            &&& next + 1 < line.len() ==> ok == StateView::Running { line, next: next + 1, outputs: outputs.push(stdout) }
            &&& next + 1 == line.len() ==> ok == StateView::Reporting { outputs: outputs.push(stdout), halt: false }
            &&& next + 1 < line.len() ==> killed == StateView::Running { line, next: next + 1, outputs }
            &&& next + 1 == line.len() ==> killed == StateView::Reporting { outputs, halt: false }
        }),
{
}

/// Law: a worker waiting for a line leaves its loop when the line channel is
/// closed, and takes a line it receives from its first command on.
pub proof fn law_waiting_worker(mode: i32, line: Seq<Seq<Seq<char>>>)
    ensures
        next_state(mode, StateView::Waiting, EventView::Closed) == StateView::Stopped,
        line.len() > 0 ==> next_state(mode, StateView::Waiting, EventView::Line(line))
            == (StateView::Running { line, next: 0, outputs: Seq::empty() }),
{
}

} // verus!
