//! The supervisor of the one worker process.
//!
//! The supervisor owns the run state and decides; the caller spawns, polls,
//! sleeps and kills, and reports back what happened. Every operation is a
//! total function of the state before it, so the caller may hold the
//! supervisor behind one lock and call in any order.

use vstd::prelude::*;
use crate::locator::{LaunchMode, LaunchSpec, Os};
use crate::text::opt_view;
use crate::text::{chars_of, contains, contains_chars, decimal, decimal_string};

verus! {

/// Whether a worker is active, and in which phase of its life.
#[derive(Clone, Copy, Debug, PartialEq, Eq, Structural)]
pub enum RunState {
    /// No worker.
    Idle,
    /// A start was admitted and the worker is being spawned.
    Starting,
    /// The worker runs as process `pid`.
    Running { pid: u32 },
    /// The worker was asked to stop and has not been seen to exit.
    Stopping,
}

/// What can happen to a supervisor.
#[derive(Clone, Copy, Debug, PartialEq, Eq, Structural)]
pub enum Op {
    /// A start is requested.
    BeginStart,
    /// The spawn went through; the worker is process `pid`.
    SpawnSucceeded { pid: u32 },
    /// The spawn failed.
    SpawnFailed,
    /// The worker closed its output.
    OutputClosed,
    /// A stop is requested.
    BeginStop,
    /// The stop protocol has run to its end.
    FinishStop,
}

/// The state after `op` in state `s`. An operation that does not fit the
/// state leaves it as it is.
pub open spec fn apply(s: RunState, op: Op) -> RunState {
    match op {
        Op::BeginStart => if s is Idle {
            RunState::Starting
        } else {
            s
        },
        Op::SpawnSucceeded { pid } => if s is Starting {
            RunState::Running { pid }
        } else {
            s
        },
        Op::SpawnFailed => if s is Starting {
            RunState::Idle
        } else {
            s
        },
        Op::OutputClosed => RunState::Idle,
        Op::BeginStop => if s is Running {
            RunState::Stopping
        } else {
            s
        },
        Op::FinishStop => if s is Stopping {
            RunState::Idle
        } else {
            s
        },
    }
}

/// The state after the operations `ops`, one after the other, from `s`.
pub open spec fn run(s: RunState, ops: Seq<Op>) -> RunState
    decreases ops.len(),
{
    if ops.len() == 0 {
        s
    } else {
        apply(run(s, ops.drop_last()), ops.last())
    }
}

/// Whether `op` in state `s` admits a new worker.
pub open spec fn admits(s: RunState, op: Op) -> bool {
    op is BeginStart && s is Idle
}

/// Whether `op` in state `s` ends the life of a worker.
pub open spec fn retires(s: RunState, op: Op) -> bool {
    !(s is Idle) && apply(s, op) is Idle
}

/// How many workers were admitted in the course of `ops` from `s`.
pub open spec fn admitted(s: RunState, ops: Seq<Op>) -> nat
    decreases ops.len(),
{
    if ops.len() == 0 {
        0
    } else {
        let before = run(s, ops.drop_last());
        admitted(s, ops.drop_last()) + if admits(before, ops.last()) {
            1nat
        } else {
            0nat
        }
    }
}

/// How many workers were retired in the course of `ops` from `s`.
pub open spec fn retired(s: RunState, ops: Seq<Op>) -> nat
    decreases ops.len(),
{
    if ops.len() == 0 {
        0
    } else {
        let before = run(s, ops.drop_last());
        retired(s, ops.drop_last()) + if retires(before, ops.last()) {
            1nat
        } else {
            0nat
        }
    }
}

/// At most one worker at a time: whatever is called, in whatever order, on
/// a supervisor that starts idle, the workers admitted and not yet retired
/// number one while the state is not `Idle`, and none while it is.
pub proof fn lemma_at_most_one_worker(ops: Seq<Op>)
    ensures
        admitted(RunState::Idle, ops) - retired(RunState::Idle, ops) == if run(
            RunState::Idle,
            ops,
        ) is Idle {
            0int
        } else {
            1int
        },
    decreases ops.len(),
{
    if ops.len() > 0 {
        lemma_at_most_one_worker(ops.drop_last());
    }
}

/// A start is admitted in the idle state only: while a worker is starting,
/// running or stopping, a request to start changes nothing.
pub proof fn lemma_start_needs_idle(s: RunState)
    ensures
        !(s is Idle) ==> apply(s, Op::BeginStart) == s && !admits(s, Op::BeginStart),
        s is Idle ==> apply(s, Op::BeginStart) is Starting,
{
}

/// A stop in the idle state changes nothing.
pub proof fn lemma_stop_when_idle()
    ensures
        apply(RunState::Idle, Op::BeginStop) == RunState::Idle,
        apply(RunState::Idle, Op::FinishStop) == RunState::Idle,
{
}

/// Why a start did not go through.
#[derive(Clone, Copy, Debug, PartialEq, Eq, Structural)]
pub enum SupervisorError {
    /// A worker is active already.
    AlreadyRunning,
}

impl SupervisorError {
    /// The message for the user.
    pub fn message(&self) -> (m: String)
        ensures
            m@ == "Bot is already running"@,
    {
        "Bot is already running".to_owned()
    }
}

/// The supervisor: the one place that knows whether a worker is active.
#[derive(Debug)]
pub struct Supervisor {
    state: RunState,
}

impl Supervisor {
    /// The current state.
    pub closed spec fn spec_state(&self) -> RunState {
        self.state
    }

    /// A supervisor without a worker.
    pub fn new() -> (s: Supervisor)
        ensures
            s.spec_state() == RunState::Idle,
    {
        Supervisor { state: RunState::Idle }
    }

    /// The current state.
    #[verifier::when_used_as_spec(spec_state)]
    pub fn state(&self) -> (s: RunState)
        ensures
            s == self.spec_state(),
    {
        self.state
    }

    /// Whether a worker is active: starting, running or stopping.
    pub fn is_running(&self) -> (r: bool)
        ensures
            r == !(self.spec_state() is Idle),
    {
        match self.state {
            RunState::Idle => false,
            _ => true,
        }
    }

    /// Admits a start if no worker is active, and refuses it otherwise,
    /// leaving the state as it is. After `Ok` the caller spawns the worker
    /// and reports the outcome with `spawn_succeeded` or `spawn_failed`.
    pub fn begin_start(&mut self) -> (r: Result<(), SupervisorError>)
        ensures
            final(self).spec_state() == apply(old(self).spec_state(), Op::BeginStart),
            r is Ok <==> old(self).spec_state() is Idle,
            r is Err ==> r == Err::<(), SupervisorError>(SupervisorError::AlreadyRunning),
    {
        match self.state {
            RunState::Idle => {
                self.state = RunState::Starting;
                Ok(())
            },
            _ => Err(SupervisorError::AlreadyRunning),
        }
    }

    /// Records that the worker was spawned as process `pid`. Returns whether
    /// a start was under way.
    pub fn spawn_succeeded(&mut self, pid: u32) -> (r: bool)
        ensures
            final(self).spec_state() == apply(
                old(self).spec_state(),
                Op::SpawnSucceeded { pid },
            ),
            r == old(self).spec_state() is Starting,
    {
        match self.state {
            RunState::Starting => {
                self.state = RunState::Running { pid };
                true
            },
            _ => false,
        }
    }

    /// Records that the spawn failed: the supervisor is idle again. Returns
    /// whether a start was under way.
    pub fn spawn_failed(&mut self) -> (r: bool)
        ensures
            final(self).spec_state() == apply(old(self).spec_state(), Op::SpawnFailed),
            r == old(self).spec_state() is Starting,
    {
        match self.state {
            RunState::Starting => {
                self.state = RunState::Idle;
                true
            },
            _ => false,
        }
    }

    /// Records that the worker closed its output, which is how a worker
    /// says that it is done, whether it ends well or badly. The supervisor
    /// is idle afterwards, and the caller reaps the process, drops its
    /// handle and emits the one event that this returns.
    pub fn output_closed(&mut self) -> (e: WorkerEvent)
        ensures
            final(self).spec_state() == apply(old(self).spec_state(), Op::OutputClosed),
            final(self).spec_state() is Idle,
            e@ == WorkerEventView::Stopped,
    {
        self.state = RunState::Idle;
        WorkerEvent::Stopped
    }

    /// Begins a stop. With a running worker the state becomes `Stopping`
    /// and the worker's process id is returned: the caller then writes the
    /// stop marker and polls, guided by a `StopWatch`. In every other
    /// state, the idle one above all, nothing changes and there is nothing
    /// to do.
    pub fn begin_stop(&mut self) -> (r: Option<u32>)
        ensures
            final(self).spec_state() == apply(old(self).spec_state(), Op::BeginStop),
            match r {
                Some(pid) => old(self).spec_state() == (RunState::Running { pid }),
                None => !(old(self).spec_state() is Running) && final(self).spec_state() == old(
                    self,
                ).spec_state(),
            },
    {
        match self.state {
            RunState::Running { pid } => {
                self.state = RunState::Stopping;
                Some(pid)
            },
            _ => None,
        }
    }

    /// Ends a stop: the supervisor is idle again. The caller removes the
    /// stop marker on this path and on every other. Returns whether a stop
    /// was under way.
    pub fn finish_stop(&mut self) -> (r: bool)
        ensures
            final(self).spec_state() == apply(old(self).spec_state(), Op::FinishStop),
            r == old(self).spec_state() is Stopping,
    {
        match self.state {
            RunState::Stopping => {
                self.state = RunState::Idle;
                true
            },
            _ => false,
        }
    }
}

/// The longest that a stop waits for the worker to exit by itself, in
/// milliseconds.
pub const MAX_WAIT_MS: u64 = 10000;

/// The time between two looks at the worker during a stop, in milliseconds.
pub const POLL_INTERVAL_MS: u64 = 500;

/// What a look at the worker showed.
#[derive(Clone, Copy, Debug, PartialEq, Eq, Structural)]
pub enum PollOutcome {
    /// The worker has exited.
    Exited,
    /// The worker still runs.
    StillRunning,
    /// The look itself failed.
    Failed,
}

/// What the caller does next during a stop.
#[derive(Clone, Copy, Debug, PartialEq, Eq, Structural)]
pub enum StopStep {
    /// Sleep for so many milliseconds, then look again.
    Sleep { ms: u64 },
    /// Terminate the worker and all its descendants by force.
    Escalate,
    /// The wait is over.
    Done,
}

/// The step after a look that showed `outcome`, `waited` milliseconds into
/// the stop, and the time waited after that step.
pub open spec fn stop_step(waited: int, outcome: PollOutcome) -> (StopStep, int) {
    match outcome {
        PollOutcome::Exited => (StopStep::Done, waited),
        PollOutcome::Failed => (StopStep::Done, waited),
        PollOutcome::StillRunning => if waited >= MAX_WAIT_MS {
            (StopStep::Escalate, waited)
        } else {
            (StopStep::Sleep { ms: POLL_INTERVAL_MS }, waited + POLL_INTERVAL_MS)
        },
    }
}

/// The clock of one stop: how long the stop has waited for the worker.
#[derive(Debug)]
pub struct StopWatch {
    waited_ms: u64,
}

impl StopWatch {
    /// The time waited so far, in milliseconds.
    pub closed spec fn spec_waited(&self) -> u64 {
        self.waited_ms
    }

    #[verifier::type_invariant]
    spec fn bounded(&self) -> bool {
        self.waited_ms <= MAX_WAIT_MS && self.waited_ms % POLL_INTERVAL_MS == 0
    }

    /// A stop that has not waited yet.
    pub fn new() -> (w: StopWatch)
        ensures
            w.spec_waited() == 0,
    {
        StopWatch { waited_ms: 0 }
    }

    /// The time waited so far, in milliseconds.
    #[verifier::when_used_as_spec(spec_waited)]
    pub fn waited(&self) -> (ms: u64)
        ensures
            ms == self.spec_waited(),
            ms <= MAX_WAIT_MS,
    {
        proof {
            use_type_invariant(self);
        }
        self.waited_ms
    }

    /// Takes the outcome of a look at the worker and says what to do next.
    /// A worker that has exited, or that cannot be looked at, ends the
    /// wait. One that still runs is given another interval, until the
    /// whole wait is used up: then it is terminated by force.
    pub fn on_poll(&mut self, outcome: PollOutcome) -> (step: StopStep)
        ensures
            (step, final(self).spec_waited() as int) == stop_step(
                old(self).spec_waited() as int,
                outcome,
            ),
            final(self).spec_waited() <= MAX_WAIT_MS,
    {
        proof {
            use_type_invariant(&*self);
        }
        match outcome {
            PollOutcome::Exited => StopStep::Done,
            PollOutcome::Failed => StopStep::Done,
            PollOutcome::StillRunning => {
                if self.waited_ms >= MAX_WAIT_MS {
                    StopStep::Escalate
                } else {
                    self.waited_ms = self.waited_ms + POLL_INTERVAL_MS;
                    StopStep::Sleep { ms: POLL_INTERVAL_MS }
                }
            },
        }
    }
}

/// The time waited after the looks `polls`, from `waited`: the watch stops
/// counting at the first step that is not a sleep.
pub open spec fn waited_after(waited: int, polls: Seq<PollOutcome>) -> int
    decreases polls.len(),
{
    if polls.len() == 0 {
        waited
    } else {
        let (step, next) = stop_step(waited, polls[0]);
        if step is Sleep {
            waited_after(next, polls.drop_first())
        } else {
            waited
        }
    }
}

/// How many looks it takes until the wait is over, from `waited`: the
/// index of the first step that is not a sleep, or the number of looks if
/// all of them lead to a sleep.
pub open spec fn looks_until_over(waited: int, polls: Seq<PollOutcome>) -> nat
    decreases polls.len(),
{
    if polls.len() == 0 {
        0
    } else {
        let (step, next) = stop_step(waited, polls[0]);
        if step is Sleep {
            1 + looks_until_over(next, polls.drop_first())
        } else {
            0
        }
    }
}

/// A worker that ignores the request to stop is terminated by force in
/// bounded time: whatever the looks show, the stop sleeps no longer than
/// `MAX_WAIT_MS` in all, and after at most `MAX_WAIT_MS / POLL_INTERVAL_MS`
/// sleeps the next look ends the wait, by force if the worker still runs.
pub proof fn lemma_stop_is_bounded(waited: int, polls: Seq<PollOutcome>)
    requires
        0 <= waited <= MAX_WAIT_MS,
        waited % (POLL_INTERVAL_MS as int) == 0,
    ensures
        waited_after(waited, polls) <= MAX_WAIT_MS,
        waited_after(waited, polls) == waited + POLL_INTERVAL_MS * looks_until_over(waited, polls),
        looks_until_over(waited, polls) <= (MAX_WAIT_MS - waited) / (POLL_INTERVAL_MS as int),
        looks_until_over(waited, polls) < polls.len() ==> ({
            let at = looks_until_over(waited, polls) as int;
            let step = stop_step(waited_after(waited, polls), polls[at]).0;
            (step is Done && !(polls[at] is StillRunning)) || (step is Escalate
                && polls[at] is StillRunning && waited_after(waited, polls) == MAX_WAIT_MS)
        }),
    decreases polls.len(),
{
    if polls.len() > 0 {
        let (step, next) = stop_step(waited, polls[0]);
        if step is Sleep {
            lemma_stop_is_bounded(next, polls.drop_first());
            let k = looks_until_over(next, polls.drop_first());
            if k < polls.drop_first().len() {
                assert(polls.drop_first()[k as int] == polls[k as int + 1]);
            }
        }
    }
}

/// One step of the forced termination of a worker and its descendants.
#[derive(Debug)]
pub enum KillStep {
    /// Send the kill signal to the process group `pgid`.
    SignalGroup { pgid: u32 },
    /// Run a system utility that kills a process tree.
    Run { program: String, args: Vec<String> },
    /// Kill the worker through its handle.
    KillChild,
    /// Wait for the worker to exit.
    WaitChild,
}

/// What a `KillStep` stands for.
pub enum KillStepView {
    SignalGroup { pgid: u32 },
    Run { program: Seq<char>, args: Seq<Seq<char>> },
    KillChild,
    WaitChild,
}

impl View for KillStep {
    type V = KillStepView;

    open spec fn view(&self) -> KillStepView {
        match self {
            KillStep::SignalGroup { pgid } => KillStepView::SignalGroup { pgid: *pgid },
            KillStep::Run { program, args } => KillStepView::Run {
                program: program@,
                args: args@.map_values(|s: String| s@),
            },
            KillStep::KillChild => KillStepView::KillChild,
            KillStep::WaitChild => KillStepView::WaitChild,
        }
    }
}

/// The views of a list of steps.
pub open spec fn kill_step_views(v: Seq<KillStep>) -> Seq<KillStepView> {
    v.map_values(|k: KillStep| k@)
}

/// How the platform terminates the process tree of `pid`.
pub open spec fn tree_kill(os: Os, pid: u32) -> Seq<KillStepView> {
    match os {
        Os::MacOs | Os::Linux => seq![
            KillStepView::SignalGroup { pgid: pid },
            KillStepView::Run {
                program: "pkill"@,
                args: seq!["-KILL"@, "-P"@, decimal(pid as int)],
            },
        ],
        Os::Windows => seq![
            KillStepView::Run {
                program: "taskkill"@,
                args: seq!["/F"@, "/T"@, "/PID"@, decimal(pid as int)],
            },
        ],
        Os::Other => seq![],
    }
}

/// The forced termination of the worker `pid`: first the whole process
/// tree by the platform's means, then the worker itself through its handle
/// as a backstop, then the wait for its exit.
pub open spec fn escalation_steps(os: Os, pid: u32) -> Seq<KillStepView> {
    tree_kill(os, pid) + seq![KillStepView::KillChild, KillStepView::WaitChild]
}

/// Whether the platform can put the worker into a process group of its
/// own, so that the whole tree can be signalled at once.
pub fn isolates_process_group(os: Os) -> (r: bool)
    ensures
        r == (os is MacOs || os is Linux),
{
    match os {
        Os::MacOs => true,
        Os::Linux => true,
        _ => false,
    }
}

/// The steps that terminate the worker `pid` by force on `os`.
pub fn escalation(os: Os, pid: u32) -> (steps: Vec<KillStep>)
    ensures
        kill_step_views(steps@) == escalation_steps(os, pid),
{
    let mut steps: Vec<KillStep> = Vec::new();
    match os {
        Os::MacOs | Os::Linux => {
            let mut args: Vec<String> = Vec::new();
            args.push("-KILL".to_owned());
            args.push("-P".to_owned());
            args.push(decimal_string(pid as i64));
            assert(args@.map_values(|s: String| s@) =~= seq![
                "-KILL"@,
                "-P"@,
                decimal(pid as int),
            ]);
            steps.push(KillStep::SignalGroup { pgid: pid });
            steps.push(KillStep::Run { program: "pkill".to_owned(), args });
            assert(kill_step_views(steps@) =~= tree_kill(os, pid));
        },
        Os::Windows => {
            let mut args: Vec<String> = Vec::new();
            args.push("/F".to_owned());
            args.push("/T".to_owned());
            args.push("/PID".to_owned());
            args.push(decimal_string(pid as i64));
            assert(args@.map_values(|s: String| s@) =~= seq![
                "/F"@,
                "/T"@,
                "/PID"@,
                decimal(pid as int),
            ]);
            steps.push(KillStep::Run { program: "taskkill".to_owned(), args });
            assert(kill_step_views(steps@) =~= tree_kill(os, pid));
        },
        Os::Other => {
            assert(kill_step_views(steps@) =~= tree_kill(os, pid));
        },
    }
    let ghost tree = steps@;
    steps.push(KillStep::KillChild);
    steps.push(KillStep::WaitChild);
    assert(kill_step_views(steps@) =~= kill_step_views(tree) + seq![
        KillStepView::KillChild,
        KillStepView::WaitChild,
    ]);
    steps
}

/// The arguments of the worker: the configuration file, then the flags
/// that are set.
pub open spec fn worker_args(config_path: Seq<char>, debug: bool, headless: bool) -> Seq<
    Seq<char>,
> {
    seq!["--config"@, config_path] + if debug {
        seq!["--debug"@]
    } else {
        seq![]
    } + if headless {
        seq!["--headless"@]
    } else {
        seq![]
    }
}

/// The views of a list of strings.
pub open spec fn string_views(v: Seq<String>) -> Seq<Seq<char>> {
    v.map_values(|s: String| s@)
}

/// The arguments of the worker: `--config <path>`, then `--debug` and
/// `--headless` as far as the settings ask for them.
pub fn build_args(config_path: &str, debug: bool, headless: bool) -> (args: Vec<String>)
    ensures
        string_views(args@) == worker_args(config_path@, debug, headless),
{
    let mut args: Vec<String> = Vec::new();
    args.push("--config".to_owned());
    args.push(config_path.to_owned());
    assert(string_views(args@) =~= seq!["--config"@, config_path@]);
    if debug {
        args.push("--debug".to_owned());
    }
    assert(string_views(args@) =~= seq!["--config"@, config_path@] + if debug {
        seq!["--debug"@]
    } else {
        seq![]
    });
    let ghost before = string_views(args@);
    if headless {
        args.push("--headless".to_owned());
    }
    assert(string_views(args@) =~= before + if headless {
        seq!["--headless"@]
    } else {
        seq![]
    });
    args
}

/// The whole argument vector of a launch: what the launch puts first, then
/// the worker's own arguments.
pub fn command_line(spec: &LaunchSpec, args: &Vec<String>) -> (line: Vec<String>)
    ensures
        string_views(line@) == spec@.arg_prefix + string_views(args@),
{
    let mut line: Vec<String> = Vec::new();
    let mut i: usize = 0;
    while i < spec.arg_prefix.len()
        invariant
            i <= spec.arg_prefix.len(),
            line.len() == i,
            forall|k: int| 0 <= k < i ==> (#[trigger] line@[k])@ == spec.arg_prefix@[k]@,
        decreases spec.arg_prefix.len() - i,
    {
        line.push(spec.arg_prefix[i].clone());
        i += 1;
    }
    let n = i;
    let mut j: usize = 0;
    while j < args.len()
        invariant
            j <= args.len(),
            n == spec.arg_prefix.len(),
            line.len() == n + j,
            forall|k: int| 0 <= k < n ==> (#[trigger] line@[k])@ == spec.arg_prefix@[k]@,
            forall|k: int| 0 <= k < j ==> (#[trigger] line@[n + k])@ == args@[k]@,
        decreases args.len() - j,
    {
        line.push(args[j].clone());
        j += 1;
    }
    assert(string_views(line@) =~= spec@.arg_prefix + string_views(args@)) by {
        assert forall|k: int| 0 <= k < line.len() implies string_views(line@)[k] == (spec@.arg_prefix
            + string_views(args@))[k] by {
            if k >= n {
                assert(line@[n + (k - n)]@ == args@[k - n]@);
            }
        }
    }
    line
}

/// One variable of the worker's environment.
#[derive(Debug)]
pub struct EnvVar {
    pub name: String,
    pub value: String,
}

impl View for EnvVar {
    type V = (Seq<char>, Seq<char>);

    open spec fn view(&self) -> (Seq<char>, Seq<char>) {
        (self.name@, self.value@)
    }
}

/// The environment that every worker is given: output in UTF-8, and the
/// version of the host.
pub open spec fn worker_env(version: Seq<char>) -> Seq<(Seq<char>, Seq<char>)> {
    seq![
        ("PYTHONIOENCODING"@, "utf-8"@),
        ("PYTHONUTF8"@, "1"@),
        ("INBOXHUNTER_VERSION"@, version),
    ]
}

/// The variables to set in the worker's environment.
pub fn worker_environment(version: &str) -> (env: Vec<EnvVar>)
    ensures
        env@.map_values(|e: EnvVar| e@) == worker_env(version@),
{
    let mut env: Vec<EnvVar> = Vec::new();
    env.push(EnvVar { name: "PYTHONIOENCODING".to_owned(), value: "utf-8".to_owned() });
    env.push(EnvVar { name: "PYTHONUTF8".to_owned(), value: "1".to_owned() });
    env.push(EnvVar { name: "INBOXHUNTER_VERSION".to_owned(), value: version.to_owned() });
    assert(env@.map_values(|e: EnvVar| e@) =~= worker_env(version@));
    env
}

/// One line of the worker's output, with the level it is shown at.
#[derive(Clone, Debug)]
pub struct LogEvent {
    pub level: String,
    pub message: String,
}

/// What a `LogEvent` stands for.
pub struct LogEventView {
    pub level: Seq<char>,
    pub message: Seq<char>,
}

impl View for LogEvent {
    type V = LogEventView;

    open spec fn view(&self) -> LogEventView {
        LogEventView { level: self.level@, message: self.message@ }
    }
}

/// What the supervisor tells its listeners.
#[derive(Debug)]
pub enum WorkerEvent {
    /// A line of output.
    Log(LogEvent),
    /// The worker is gone.
    Stopped,
}

/// What a `WorkerEvent` stands for.
pub enum WorkerEventView {
    Log(LogEventView),
    Stopped,
}

impl View for WorkerEvent {
    type V = WorkerEventView;

    open spec fn view(&self) -> WorkerEventView {
        match self {
            WorkerEvent::Log(e) => WorkerEventView::Log(e@),
            WorkerEvent::Stopped => WorkerEventView::Stopped,
        }
    }
}

/// The level of a line of the worker's output: the first of error,
/// warning, success and debug of which the line holds a marker, and info
/// for a line without one.
pub open spec fn log_level(line: Seq<char>) -> Seq<char> {
    if contains(line, "ERROR"@) || contains(line, "\u{274c}"@) {
        "error"@
    } else if contains(line, "WARNING"@) || contains(line, "\u{26a0}\u{fe0f}"@) {
        "warning"@
    } else if contains(line, "SUCCESS"@) || contains(line, "\u{2705}"@) || contains(
        line,
        "\u{1f389}"@,
    ) {
        "success"@
    } else if contains(line, "DEBUG"@) {
        "debug"@
    } else {
        "info"@
    }
}

/// Classifies a line of the worker's output by the markers it holds. The
/// levels are tried in the order error, warning, success, debug, and the
/// first that matches wins; a line without a marker is information.
pub fn determine_log_level(line: &str) -> (level: &'static str)
    ensures
        level@ == log_level(line@),
{
    let l = chars_of(line);
    if contains_chars(&l, &chars_of("ERROR")) || contains_chars(&l, &chars_of("\u{274c}")) {
        "error"
    } else if contains_chars(&l, &chars_of("WARNING")) || contains_chars(
        &l,
        &chars_of("\u{26a0}\u{fe0f}"),
    ) {
        "warning"
    } else if contains_chars(&l, &chars_of("SUCCESS")) || contains_chars(
        &l,
        &chars_of("\u{2705}"),
    ) || contains_chars(&l, &chars_of("\u{1f389}")) {
        "success"
    } else if contains_chars(&l, &chars_of("DEBUG")) {
        "debug"
    } else {
        "info"
    }
}

/// The event for a line that the worker wrote to its output.
pub fn stdout_event(line: String) -> (e: LogEvent)
    ensures
        e@ == (LogEventView { level: log_level(line@), message: line@ }),
{
    let level = determine_log_level(line.as_str()).to_owned();
    LogEvent { level, message: line }
}

/// The event for a line that the worker wrote to its error stream: an
/// error, whatever the line says.
pub fn stderr_event(line: String) -> (e: LogEvent)
    ensures
        e@ == (LogEventView { level: "error"@, message: line@ }),
{
    LogEvent { level: "error".to_owned(), message: line }
}

/// The events of a worker that writes `lines` and then closes its output.
pub open spec fn output_events(lines: Seq<Seq<char>>) -> Seq<WorkerEventView> {
    lines.map_values(
        |l: Seq<char>| WorkerEventView::Log(LogEventView { level: log_level(l), message: l }),
    ).push(WorkerEventView::Stopped)
}

/// A worker that writes lines and then closes its output is seen line by
/// line, in order, and then stops exactly once: the last event is the only
/// one that says so.
pub proof fn lemma_one_stop_after_all_lines(lines: Seq<Seq<char>>)
    ensures
        output_events(lines).len() == lines.len() + 1,
        output_events(lines).last() == WorkerEventView::Stopped,
        forall|i: int|
            0 <= i < lines.len() ==> #[trigger] output_events(lines)[i] == WorkerEventView::Log(
                LogEventView { level: log_level(lines[i]), message: lines[i] },
            ),
{
}

/// Everything the caller needs to spawn the worker.
#[derive(Debug)]
pub struct LaunchPlan {
    /// The program to run.
    pub executable: String,
    /// Its arguments.
    pub args: Vec<String>,
    /// The directory to run it in; the directory of the host if none.
    pub working_dir: Option<String>,
    /// The variables to add to its environment.
    pub env: Vec<EnvVar>,
    /// Whether the worker gets a process group of its own.
    pub own_process_group: bool,
    /// Whether the worker is kept from opening a console window.
    pub hide_window: bool,
}

/// What a `LaunchPlan` stands for.
pub struct LaunchPlanView {
    pub executable: Seq<char>,
    pub args: Seq<Seq<char>>,
    pub working_dir: Option<Seq<char>>,
    pub env: Seq<(Seq<char>, Seq<char>)>,
    pub own_process_group: bool,
    pub hide_window: bool,
}

impl View for LaunchPlan {
    type V = LaunchPlanView;

    open spec fn view(&self) -> LaunchPlanView {
        LaunchPlanView {
            executable: self.executable@,
            args: string_views(self.args@),
            working_dir: opt_view(self.working_dir),
            env: self.env@.map_values(|e: EnvVar| e@),
            own_process_group: self.own_process_group,
            hide_window: self.hide_window,
        }
    }
}

/// Plans the spawn of the worker: the launch is run with the worker's
/// arguments behind its own, in the launch's directory, with its output
/// captured by the caller. Where the platform allows, the worker gets a
/// process group of its own, so that it can be terminated with all its
/// descendants.
pub fn plan_launch(
    spec: &LaunchSpec,
    config_path: &str,
    debug: bool,
    headless: bool,
    version: &str,
    os: Os,
) -> (plan: LaunchPlan)
    ensures
        plan@ == (LaunchPlanView {
            executable: spec@.executable,
            args: spec@.arg_prefix + worker_args(config_path@, debug, headless),
            working_dir: spec@.working_dir,
            env: worker_env(version@),
            own_process_group: os is MacOs || os is Linux,
            hide_window: os is Windows,
        }),
{
    let args = build_args(config_path, debug, headless);
    LaunchPlan {
        executable: spec.executable.clone(),
        args: command_line(spec, &args),
        working_dir: crate::text::copy_opt(&spec.working_dir),
        env: worker_environment(version),
        own_process_group: isolates_process_group(os),
        hide_window: match os {
            Os::Windows => true,
            _ => false,
        },
    }
}

/// What the user is told when the worker could not be spawned.
pub fn spawn_error_message(mode: LaunchMode, cause: &str) -> (m: String)
    ensures
        m@ == match mode {
            LaunchMode::Script => "Failed to start bot: "@,
            LaunchMode::Sidecar => "Failed to start sidecar: "@,
        } + cause@,
{
    let mut m = String::new();
    match mode {
        LaunchMode::Script => m.append("Failed to start bot: "),
        LaunchMode::Sidecar => m.append("Failed to start sidecar: "),
    }
    m.append(cause);
    assert(m@ =~= match mode {
        LaunchMode::Script => "Failed to start bot: "@,
        LaunchMode::Sidecar => "Failed to start sidecar: "@,
    } + cause@);
    m
}


} // verus!
