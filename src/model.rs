//! The combinator's abstract state and its transitions.
use vstd::prelude::*;

verus! {

/// The three phases of the combinator, entered strictly in this order.
#[derive(Clone, Copy, Debug, PartialEq, Eq, Structural)]
pub enum Phase {
    WaitingForTrigger,
    RunningAction,
    JoiningTasks,
}

/// A computation that the host is asked to poll: a trigger by its index, a task
/// by its id, or the cleanup action.
#[derive(Clone, Copy, Debug, PartialEq, Eq, Structural)]
pub enum Probe {
    Trigger(usize),
    Task(usize),
    Cleanup,
}

/// What the combinator hands back to the host after each step.
#[derive(Clone, Copy, Debug, PartialEq, Eq, Structural)]
pub enum Step {
    /// Poll this computation and report whether it resolved.
    Inspect(Probe),
    /// The evaluation call is over and yields "not yet done"; `wake` asks the
    /// host to evaluate the combinator again.
    Pending { wake: bool },
    /// The evaluation call is over and the combinator has finished.
    Done,
}

/// Where an evaluation call stands: between calls, or waiting for the answer
/// about one computation (a trigger index or a task position).
#[derive(Clone, Copy, Debug, PartialEq, Eq, Structural)]
pub enum Cursor {
    Idle,
    Trigger(usize),
    Task(usize),
    Cleanup,
    LastTask,
}

/// The abstract state of the combinator.
pub ghost struct ShutdownState {
    pub triggers: nat,
    pub tasks: Seq<usize>,
    pub phase: Phase,
    pub cursor: Cursor,
}

/// The ids of `n` tasks as first handed over: `0, 1, ..., n - 1`.
pub open spec fn task_ids(n: nat) -> Seq<usize> {
    Seq::new(n, |i: int| i as usize)
}

/// The state right after construction.
pub open spec fn initial(triggers: nat, tasks: nat) -> ShutdownState {
    ShutdownState {
        triggers,
        tasks: task_ids(tasks),
        phase: Phase::WaitingForTrigger,
        cursor: Cursor::Idle,
    }
}

pub open spec fn strictly_increasing(s: Seq<usize>) -> bool {
    forall|i: int, j: int| 0 <= i < j < s.len() ==> s[i] < s[j]
}

/// The cursor fits the phase, and the task ids are distinct, in their first order.
pub open spec fn well_formed(s: ShutdownState) -> bool {
    &&& s.triggers <= usize::MAX
    &&& s.tasks.len() <= usize::MAX
    &&& strictly_increasing(s.tasks)
    &&& match s.cursor {
        Cursor::Idle => true,
        Cursor::Trigger(i) => s.phase == Phase::WaitingForTrigger && i < s.triggers,
        Cursor::Task(p) => s.phase == Phase::WaitingForTrigger && p < s.tasks.len(),
        Cursor::Cleanup => s.phase == Phase::RunningAction,
        Cursor::LastTask => s.phase == Phase::JoiningTasks && s.tasks.len() > 0,
    }
}

pub open spec fn with_cursor(s: ShutdownState, c: Cursor) -> ShutdownState {
    ShutdownState { cursor: c, ..s }
}

/// Goes on with the scan of the tasks at position `p`: the first task not yet
/// inspected in this call, or the end of the call when none is left.
pub open spec fn scan_tasks(s: ShutdownState, p: nat) -> (ShutdownState, Step) {
    if p < s.tasks.len() {
        (with_cursor(s, Cursor::Task(p as usize)), Step::Inspect(Probe::Task(s.tasks[p as int])))
    } else {
        (with_cursor(s, Cursor::Idle), Step::Pending { wake: false })
    }
}

/// Goes on with the scan of the triggers at index `i`, then with the tasks.
pub open spec fn scan_triggers(s: ShutdownState, i: nat) -> (ShutdownState, Step) {
    if i < s.triggers {
        (with_cursor(s, Cursor::Trigger(i as usize)), Step::Inspect(Probe::Trigger(i as usize)))
    } else {
        scan_tasks(s, 0)
    }
}

/// The first step of an evaluation call.
pub open spec fn begin(s: ShutdownState) -> (ShutdownState, Step) {
    match s.phase {
        Phase::WaitingForTrigger => scan_triggers(s, 0),
        Phase::RunningAction => (with_cursor(s, Cursor::Cleanup), Step::Inspect(Probe::Cleanup)),
        Phase::JoiningTasks => if s.tasks.len() == 0 {
            (s, Step::Done)
        } else {
            (with_cursor(s, Cursor::LastTask), Step::Inspect(Probe::Task(s.tasks.last())))
        },
    }
}

/// The step that follows the host's answer on the inspected computation.
pub open spec fn resume(s: ShutdownState, ready: bool) -> (ShutdownState, Step) {
    let woken = Step::Pending { wake: true };
    match s.cursor {
        Cursor::Trigger(i) => if ready {
            (ShutdownState { phase: Phase::RunningAction, cursor: Cursor::Idle, ..s }, woken)
        } else {
            scan_triggers(s, (i + 1) as nat)
        },
        Cursor::Task(p) => if ready {
            (
                ShutdownState {
                    tasks: s.tasks.remove(p as int),
                    phase: Phase::RunningAction,
                    cursor: Cursor::Idle,
                    ..s
                },
                woken,
            )
        } else {
            scan_tasks(s, (p + 1) as nat)
        },
        Cursor::Cleanup => if ready {
            (ShutdownState { phase: Phase::JoiningTasks, cursor: Cursor::Idle, ..s }, woken)
        } else {
            (with_cursor(s, Cursor::Idle), Step::Pending { wake: false })
        },
        Cursor::LastTask => if ready {
            (ShutdownState { tasks: s.tasks.drop_last(), cursor: Cursor::Idle, ..s }, woken)
        } else {
            (with_cursor(s, Cursor::Idle), Step::Pending { wake: false })
        },
        Cursor::Idle => (s, Step::Pending { wake: false }),
    }
}

} // verus!
