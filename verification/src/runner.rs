//! The walk over the groups and their benchmarks: what is done next, given how the last thing
//! ended.
//!
//! The walk is a list of tasks in the order in which they are due. One task is under way at
//! a time. When it has ended, `step` names the next one: as a rule the one that follows, but
//! a failure or a regression leaves out the tasks that have lost their purpose.

use vstd::prelude::*;

verus! {

/// One thing to do in the walk. Groups and benchmarks are given by their places.
#[derive(Debug, Clone, Copy, PartialEq, Eq, Structural)]
pub enum Task {
    /// The set-up of the whole run.
    MainSetup,
    /// The set-up of a group.
    GroupSetup(usize),
    /// The set-up of a benchmark.
    BenchSetup(usize, usize),
    /// The run of a benchmark; with `true`, its first regression ends its group's run.
    Bench(usize, usize, bool),
    /// The tear-down of a benchmark.
    BenchTeardown(usize, usize),
    /// The tear-down of a group.
    GroupTeardown(usize),
    /// The tear-down of the whole run.
    MainTeardown,
}

/// What a benchmark asks of the walk.
#[derive(Debug, Clone, Copy, PartialEq, Eq, Structural)]
pub struct BenchShape {
    pub has_setup: bool,
    pub has_teardown: bool,
    pub fail_fast: bool,
}

/// What a group asks of the walk.
#[derive(Debug, Clone, PartialEq, Eq)]
pub struct GroupShape {
    pub has_setup: bool,
    pub has_teardown: bool,
    pub benches: Vec<BenchShape>,
}

/// What the whole run asks of the walk.
#[derive(Debug, Clone, PartialEq, Eq)]
pub struct RunShape {
    pub has_setup: bool,
    pub has_teardown: bool,
    pub groups: Vec<GroupShape>,
}

/// How a task ended.
#[derive(Debug, Clone, Copy, PartialEq, Eq, Structural)]
pub enum Event {
    /// A set-up or a tear-down ended well.
    Completed,
    /// A benchmark was run and compared; with `true`, a limit of regression was exceeded.
    BenchCompleted(bool),
    /// The task failed; with `true`, with an error that ends the whole run.
    Failed(bool),
}

/// How the whole run ended.
#[derive(Debug, Clone, Copy, PartialEq, Eq, Structural)]
pub struct Verdict {
    /// A limit of regression was exceeded.
    pub regressed: bool,
    /// A task failed.
    pub failed: bool,
}

impl Verdict {
    /// The exit code of the engine: zero on full success, one otherwise.
    pub open spec fn spec_exit_code(self) -> i32 {
        if self.regressed || self.failed {
            1
        } else {
            0
        }
    }

    /// The exit code of the engine: zero on full success, one where a regression was recorded
    /// or a task failed.
    pub fn exit_code(&self) -> (r: i32)
        ensures
            r == self.spec_exit_code(),
    {
        if self.regressed || self.failed {
            1
        } else {
            0
        }
    }
}

/// What is to be done next.
#[derive(Debug, Clone, Copy, PartialEq, Eq, Structural)]
pub enum Action {
    /// Perform the task, and report how it ended.
    Perform(Task),
    /// The walk is over.
    Finish(Verdict),
}

/// Where the walk stands: the place of the task under way, which is the number of tasks
/// once the walk is over, and what has been seen so far.
#[derive(Debug, Clone, Copy, PartialEq, Eq, Structural)]
pub struct RunState {
    pub current: usize,
    pub regressed: bool,
    pub failed: bool,
    /// The benchmarks that stay left out since the last benchmark failed fast.
    pub stopped: Skip,
}

/// The tasks that lose their purpose.
#[derive(Debug, Clone, Copy, PartialEq, Eq, Structural)]
pub enum Skip {
    /// None.
    Nothing,
    /// The run and the tear-down of this benchmark.
    Bench(usize, usize),
    /// The set-up, the run and the tear-down of every other benchmark of this group.
    OtherBenches(usize, usize),
    /// Everything of this group.
    Group(usize),
    /// Everything.
    All,
}

/// The group that a task belongs to, if it belongs to one.
pub open spec fn group_of(task: Task) -> Option<usize> {
    match task {
        Task::GroupSetup(g) | Task::GroupTeardown(g) => Some(g),
        Task::BenchSetup(g, _) | Task::Bench(g, _, _) | Task::BenchTeardown(g, _) => Some(g),
        _ => None,
    }
}

/// Whether a task belongs to a benchmark.
pub open spec fn is_bench_task(task: Task) -> bool {
    task is BenchSetup || task is Bench || task is BenchTeardown
}

/// The place, in its group, of the benchmark that a task belongs to, if it belongs to one.
pub open spec fn bench_of(task: Task) -> Option<usize> {
    match task {
        Task::BenchSetup(_, b) | Task::Bench(_, b, _) | Task::BenchTeardown(_, b) => Some(b),
        _ => None,
    }
}

/// Whether `task` is left out under `skip`.
pub open spec fn is_skipped(skip: Skip, task: Task) -> bool {
    match skip {
        Skip::Nothing => false,
        Skip::Bench(g, b) => group_of(task) == Some(g) && bench_of(task) == Some(b),
        Skip::OtherBenches(g, b) => group_of(task) == Some(g) && bench_of(task) is Some && bench_of(
            task,
        ) != Some(b),
        Skip::Group(g) => group_of(task) == Some(g),
        Skip::All => true,
    }
}

/// The tasks that lose their purpose when `task` has ended with `event`.
///
/// An error that ends the run leaves out everything. A failed set-up leaves out what it was
/// the set-up of. A benchmark that has regressed and is to fail fast leaves out the other
/// benchmarks of its group, and nothing of any other group. A benchmark that has failed
/// loses only itself: its tear-down and everything after it go on.
pub open spec fn skip_after(task: Task, event: Event) -> Skip {
    match (task, event) {
        (_, Event::Failed(true)) => Skip::All,
        (Task::MainSetup, Event::Failed(false)) => Skip::All,
        (Task::GroupSetup(g), Event::Failed(false)) => Skip::Group(g),
        (Task::BenchSetup(g, b), Event::Failed(false)) => Skip::Bench(g, b),
        (Task::Bench(g, b, true), Event::BenchCompleted(true)) => Skip::OtherBenches(g, b),
        _ => Skip::Nothing,
    }
}

/// The place of the first task from `from` on that is left out neither under `skip` nor under
/// `stopped`, or the number of tasks where all are.
pub open spec fn next_task(tasks: Seq<Task>, from: int, skip: Skip, stopped: Skip) -> int
    decreases tasks.len() - from,
{
    if from >= tasks.len() {
        tasks.len() as int
    } else if from >= 0 && (is_skipped(skip, tasks[from]) || is_skipped(stopped, tasks[from])) {
        next_task(tasks, from + 1, skip, stopped)
    } else {
        from
    }
}

/// The benchmarks that stay left out after `task` has ended with `event`: those that the
/// event leaves out where a benchmark has failed fast, else those that were left out before.
pub open spec fn stopped_after(stopped: Skip, task: Task, event: Event) -> Skip {
    if skip_after(task, event) is OtherBenches {
        skip_after(task, event)
    } else {
        stopped
    }
}

/// What the walk does at the place `at`: the task there, or the end.
pub open spec fn action_at(tasks: Seq<Task>, at: int, regressed: bool, failed: bool) -> Action {
    if 0 <= at < tasks.len() {
        Action::Perform(tasks[at])
    } else {
        Action::Finish(Verdict { regressed, failed })
    }
}

/// The state of the walk after the task under way has ended with `event`.
pub open spec fn spec_step(tasks: Seq<Task>, state: RunState, event: Event) -> RunState {
    if state.current >= tasks.len() {
        state
    } else {
        RunState {
            current: next_task(
                tasks,
                state.current + 1,
                skip_after(tasks[state.current as int], event),
                stopped_after(state.stopped, tasks[state.current as int], event),
            ) as usize,
            regressed: state.regressed || event == Event::BenchCompleted(true),
            failed: state.failed || event is Failed,
            stopped: stopped_after(state.stopped, tasks[state.current as int], event),
        }
    }
}

/// The tasks of one benchmark, in their order.
pub open spec fn bench_tasks(g: usize, b: usize, shape: BenchShape) -> Seq<Task> {
    (if shape.has_setup {
        seq![Task::BenchSetup(g, b)]
    } else {
        Seq::empty()
    }) + seq![Task::Bench(g, b, shape.fail_fast)] + (if shape.has_teardown {
        seq![Task::BenchTeardown(g, b)]
    } else {
        Seq::empty()
    })
}

/// The tasks of the first `n` benchmarks of a group, in their order.
pub open spec fn benches_tasks(g: usize, benches: Seq<BenchShape>, n: nat) -> Seq<Task>
    decreases n,
{
    if n == 0 {
        Seq::empty()
    } else {
        benches_tasks(g, benches, (n - 1) as nat) + bench_tasks(
            g,
            (n - 1) as usize,
            benches[n - 1],
        )
    }
}

/// The tasks of one group, in their order: its set-up, its benchmarks, its tear-down.
pub open spec fn group_tasks(g: usize, shape: GroupShape) -> Seq<Task> {
    (if shape.has_setup {
        seq![Task::GroupSetup(g)]
    } else {
        Seq::empty()
    }) + benches_tasks(g, shape.benches@, shape.benches@.len()) + (if shape.has_teardown {
        seq![Task::GroupTeardown(g)]
    } else {
        Seq::empty()
    })
}

/// The tasks of the first `n` groups, in their order.
pub open spec fn groups_tasks(groups: Seq<GroupShape>, n: nat) -> Seq<Task>
    decreases n,
{
    if n == 0 {
        Seq::empty()
    } else {
        groups_tasks(groups, (n - 1) as nat) + group_tasks((n - 1) as usize, groups[n - 1])
    }
}

/// The tasks of the whole run, in their order: the set-up, the groups one after the other,
/// the tear-down.
pub open spec fn agenda_of(shape: RunShape) -> Seq<Task> {
    (if shape.has_setup {
        seq![Task::MainSetup]
    } else {
        Seq::empty()
    }) + groups_tasks(shape.groups@, shape.groups@.len()) + (if shape.has_teardown {
        seq![Task::MainTeardown]
    } else {
        Seq::empty()
    })
}

/// The tasks of the whole run, in the order in which they are due.
pub fn agenda(shape: &RunShape) -> (r: Vec<Task>)
    ensures
        r@ == agenda_of(*shape),
{
    let mut r: Vec<Task> = Vec::new();
    if shape.has_setup {
        r.push(Task::MainSetup);
    }
    let ghost head = r@;
    let mut g: usize = 0;
    while g < shape.groups.len()
        invariant
            g <= shape.groups.len(),
            r@ == head + groups_tasks(shape.groups@, g as nat),
        decreases shape.groups.len() - g,
    {
        let group = &shape.groups[g];
        let ghost before = r@;
        if group.has_setup {
            r.push(Task::GroupSetup(g));
        }
        let ghost start = r@;
        let mut b: usize = 0;
        while b < group.benches.len()
            invariant
                b <= group.benches.len(),
                r@ == start + benches_tasks(g, group.benches@, b as nat),
            decreases group.benches.len() - b,
        {
            let bench = group.benches[b];
            let ghost inner = r@;
            if bench.has_setup {
                r.push(Task::BenchSetup(g, b));
            }
            r.push(Task::Bench(g, b, bench.fail_fast));
            if bench.has_teardown {
                r.push(Task::BenchTeardown(g, b));
            }
            assert(r@ =~= inner + bench_tasks(g, b, bench));
            assert(r@ =~= start + (benches_tasks(g, group.benches@, b as nat) + bench_tasks(
                g,
                b,
                bench,
            )));
            b += 1;
        }
        if group.has_teardown {
            r.push(Task::GroupTeardown(g));
        }
        assert(r@ =~= before + group_tasks(g, *group));
        assert(r@ =~= head + (groups_tasks(shape.groups@, g as nat) + group_tasks(g, *group)));
        g += 1;
    }
    if shape.has_teardown {
        r.push(Task::MainTeardown);
    }
    assert(r@ =~= agenda_of(*shape));
    r
}

fn skipped(skip: Skip, task: Task) -> (r: bool)
    ensures
        r == is_skipped(skip, task),
{
    let bench = match task {
        Task::BenchSetup(_, b) | Task::Bench(_, b, _) | Task::BenchTeardown(_, b) => Some(b),
        _ => None,
    };
    let group = match task {
        Task::GroupSetup(g) | Task::GroupTeardown(g) => Some(g),
        Task::BenchSetup(g, _) | Task::Bench(g, _, _) | Task::BenchTeardown(g, _) => Some(g),
        _ => None,
    };
    match skip {
        Skip::Nothing => false,
        Skip::Bench(g, b) => match (group, bench) {
            (Some(tg), Some(tb)) => tg == g && tb == b,
            _ => false,
        },
        Skip::OtherBenches(g, b) => match (group, bench) {
            (Some(tg), Some(tb)) => tg == g && tb != b,
            _ => false,
        },
        Skip::Group(g) => match group {
            Some(tg) => tg == g,
            None => false,
        },
        Skip::All => true,
    }
}

/// The start of the walk: the first task, or the end where there is none.
pub fn start(tasks: &Vec<Task>) -> (r: (RunState, Action))
    ensures
        r.0 == (RunState { current: 0, regressed: false, failed: false, stopped: Skip::Nothing }),
        r.1 == action_at(tasks@, 0, false, false),
{
    let state = RunState { current: 0, regressed: false, failed: false, stopped: Skip::Nothing };
    let action = if tasks.len() > 0 {
        Action::Perform(tasks[0])
    } else {
        Action::Finish(Verdict { regressed: false, failed: false })
    };
    (state, action)
}

/// The next state of the walk and what is to be done next, when the task under way has ended
/// with `event`. Once the walk is over it stays over.
pub fn step(tasks: &Vec<Task>, state: RunState, event: Event) -> (r: (RunState, Action))
    ensures
        r.0 == spec_step(tasks@, state, event),
        r.1 == action_at(tasks@, r.0.current as int, r.0.regressed, r.0.failed),
{
    if state.current >= tasks.len() {
        return (state, Action::Finish(Verdict { regressed: state.regressed, failed: state.failed }));
    }
    let task = tasks[state.current];
    let skip = match (task, event) {
        (_, Event::Failed(true)) => Skip::All,
        (Task::MainSetup, Event::Failed(false)) => Skip::All,
        (Task::GroupSetup(g), Event::Failed(false)) => Skip::Group(g),
        (Task::BenchSetup(g, b), Event::Failed(false)) => Skip::Bench(g, b),
        (Task::Bench(g, b, true), Event::BenchCompleted(true)) => Skip::OtherBenches(g, b),
        _ => Skip::Nothing,
    };
    let stopped = match skip {
        Skip::OtherBenches(_, _) => skip,
        _ => state.stopped,
    };
    let mut next: usize = state.current + 1;
    while next < tasks.len() && (skipped(skip, tasks[next]) || skipped(stopped, tasks[next]))
        invariant
            state.current < next <= tasks.len(),
            next_task(tasks@, state.current + 1, skip, stopped) == next_task(
                tasks@,
                next as int,
                skip,
                stopped,
            ),
        decreases tasks.len() - next,
    {
        next += 1;
    }
    let regressed = state.regressed || matches!(event, Event::BenchCompleted(true));
    let failed = state.failed || matches!(event, Event::Failed(_));
    let action = if next < tasks.len() {
        Action::Perform(tasks[next])
    } else {
        Action::Finish(Verdict { regressed, failed })
    };
    (RunState { current: next, regressed, failed, stopped }, action)
}

/// The place that `next_task` gives lies at or behind `from`, every task in between is left
/// out, and the task at the place is not.
pub proof fn lemma_next_task(tasks: Seq<Task>, from: int, skip: Skip, stopped: Skip)
    requires
        0 <= from <= tasks.len(),
    ensures
        from <= next_task(tasks, from, skip, stopped) <= tasks.len(),
        forall|k: int|
            from <= k < next_task(tasks, from, skip, stopped) ==> is_skipped(skip, tasks[k])
                || is_skipped(stopped, tasks[k]),
        next_task(tasks, from, skip, stopped) < tasks.len() ==> !is_skipped(
            skip,
            tasks[next_task(tasks, from, skip, stopped)],
        ) && !is_skipped(stopped, tasks[next_task(tasks, from, skip, stopped)]),
    decreases tasks.len() - from,
{
    if from < tasks.len() && (is_skipped(skip, tasks[from]) || is_skipped(stopped, tasks[from])) {
        lemma_next_task(tasks, from + 1, skip, stopped);
    }
}

/// The walk moves forward: as long as it is not over, every step leads to a later place, so
/// that no task is performed twice and the walk ends after at most as many steps as there are
/// tasks.
pub proof fn lemma_step_moves_forward(tasks: Seq<Task>, state: RunState, event: Event)
    requires
        state.current < tasks.len(),
        tasks.len() <= usize::MAX,
    ensures
        state.current < spec_step(tasks, state, event).current <= tasks.len(),
{
    lemma_next_task(
        tasks,
        state.current + 1,
        skip_after(tasks[state.current as int], event),
        stopped_after(state.stopped, tasks[state.current as int], event),
    );
}

/// Failing fast: when a benchmark that is to fail fast has regressed, the walk records the
/// regression, leaves out the other benchmarks of the group from then on, and leaves out
/// nothing of any other group.
pub proof fn lemma_fail_fast_ends_the_group(tasks: Seq<Task>, state: RunState, g: usize, b: usize)
    requires
        state.current < tasks.len() <= usize::MAX,
        tasks[state.current as int] == Task::Bench(g, b, true),
    ensures
        ({
            let after = spec_step(tasks, state, Event::BenchCompleted(true));
            &&& after.regressed
            &&& after.stopped == Skip::OtherBenches(g, b)
            &&& forall|k: int|
                state.current < k < after.current ==> (#[trigger] group_of(tasks[k]) == Some(g)
                    && is_bench_task(tasks[k])) || is_skipped(state.stopped, tasks[k])
        }),
{
    lemma_next_task(tasks, state.current + 1, Skip::OtherBenches(g, b), Skip::OtherBenches(g, b));
}

/// What has been left out stays left out: as long as no other benchmark fails fast, no step
/// of the walk leads to a benchmark that `stopped` leaves out.
pub proof fn lemma_stopped_benches_stay_out(tasks: Seq<Task>, state: RunState, event: Event)
    requires
        state.current < tasks.len() <= usize::MAX,
    ensures
        ({
            let after = spec_step(tasks, state, event);
            &&& after.current < tasks.len() ==> !is_skipped(
                after.stopped,
                tasks[after.current as int],
            )
            &&& !(skip_after(tasks[state.current as int], event) is OtherBenches) ==> after.stopped
                == state.stopped
        }),
{
    lemma_next_task(
        tasks,
        state.current + 1,
        skip_after(tasks[state.current as int], event),
        stopped_after(state.stopped, tasks[state.current as int], event),
    );
}

/// A benchmark that fails loses only itself: where its error does not end the run, the task
/// that follows it stays due, and the failure is recorded.
pub proof fn lemma_failed_bench_loses_only_itself(
    tasks: Seq<Task>,
    state: RunState,
    g: usize,
    b: usize,
    fail_fast: bool,
)
    requires
        state.current + 1 < tasks.len() <= usize::MAX,
        tasks[state.current as int] == Task::Bench(g, b, fail_fast),
        !is_skipped(state.stopped, tasks[state.current + 1]),
    ensures
        spec_step(tasks, state, Event::Failed(false)).current == state.current + 1,
        spec_step(tasks, state, Event::Failed(false)).failed,
{
}

/// Where nothing has failed fast, a task that ends well is followed by the next task: every
/// task is due in its turn. What the walk has seen is never forgotten: a regression and a
/// failure stay recorded up to the verdict.
pub proof fn lemma_walk_goes_on(tasks: Seq<Task>, state: RunState, event: Event)
    requires
        state.current < tasks.len() <= usize::MAX,
    ensures
        state.stopped is Nothing && (event is Completed || event == Event::BenchCompleted(false))
            ==> spec_step(tasks, state, event).current == state.current + 1,
        state.regressed ==> spec_step(tasks, state, event).regressed,
        state.failed ==> spec_step(tasks, state, event).failed,
        event == Event::BenchCompleted(true) ==> spec_step(tasks, state, event).regressed,
        event is Failed ==> spec_step(tasks, state, event).failed,
{
}

/// An error that ends the run leaves nothing due: the walk is over at once, with the failure
/// in its verdict.
pub proof fn lemma_fatal_error_ends_the_walk(tasks: Seq<Task>, state: RunState)
    requires
        state.current < tasks.len() <= usize::MAX,
    ensures
        spec_step(tasks, state, Event::Failed(true)).current == tasks.len(),
        action_at(
            tasks,
            tasks.len() as int,
            spec_step(tasks, state, Event::Failed(true)).regressed,
            spec_step(tasks, state, Event::Failed(true)).failed,
        ) == Action::Finish(Verdict { regressed: state.regressed, failed: true }),
{
    lemma_next_task(tasks, state.current + 1, Skip::All, state.stopped);
    let next = next_task(tasks, state.current + 1, Skip::All, state.stopped);
    if next < tasks.len() {
        assert(is_skipped(Skip::All, tasks[next]));
    }
}

} // verus!
