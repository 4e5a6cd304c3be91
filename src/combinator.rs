use vstd::prelude::*;

use crate::model::{
    begin, initial, resume, scan_tasks, scan_triggers, task_ids, well_formed, Cursor, Phase,
    Probe, ShutdownState, Step,
};

verus! {

/// A combinator that awaits the first of several triggers or tasks, runs a
/// cleanup action, then joins the remaining tasks.
///
/// It owns the ids of the tasks that are still outstanding (`0..n` at first,
/// in their order) and the number of triggers; the host owns the computations.
/// An evaluation call starts with `poll` and goes on with `answer` for as long
/// as the step asks for a computation to be inspected.
pub struct ShutdownFuture {
    triggers: usize,
    tasks: Vec<usize>,
    phase: Phase,
    cursor: Cursor,
}

impl View for ShutdownFuture {
    type V = ShutdownState;

    closed spec fn view(&self) -> ShutdownState {
        ShutdownState {
            triggers: self.triggers as nat,
            tasks: self.tasks@,
            phase: self.phase,
            cursor: self.cursor,
        }
    }
}

impl ShutdownFuture {
    /// A combinator over `triggers` triggers and `tasks` tasks (with the ids
    /// `0..tasks`), waiting for a trigger. Empty sets are allowed.
    pub fn new(triggers: usize, tasks: usize) -> (r: Self)
        ensures
            r@ == initial(triggers as nat, tasks as nat),
            well_formed(r@),
    {
        let mut ids: Vec<usize> = Vec::new();
        let mut i: usize = 0;
        while i < tasks
            invariant
                i <= tasks,
                ids@ == task_ids(i as nat),
            decreases tasks - i,
        {
            ids.push(i);
            i = i + 1;
            assert(ids@ =~= task_ids(i as nat));
        }
        ShutdownFuture { triggers, tasks: ids, phase: Phase::WaitingForTrigger, cursor: Cursor::Idle }
    }

    /// The current phase.
    pub fn phase(&self) -> (r: Phase)
        ensures
            r == self@.phase,
    {
        self.phase
    }

    /// Whether an evaluation call is under way, waiting for an answer.
    pub fn is_inspecting(&self) -> (r: bool)
        ensures
            r == (self@.cursor != Cursor::Idle),
    {
        !matches!(self.cursor, Cursor::Idle)
    }

    /// The number of tasks still outstanding.
    pub fn tasks_left(&self) -> (r: usize)
        ensures
            r == self@.tasks.len(),
    {
        self.tasks.len()
    }

    fn scan_tasks_from(&mut self, p: usize) -> (r: Step)
        requires
            well_formed(old(self)@),
            old(self)@.phase == Phase::WaitingForTrigger,
        ensures
            (final(self)@, r) == scan_tasks(old(self)@, p as nat),
            well_formed(final(self)@),
    {
        if p < self.tasks.len() {
            self.cursor = Cursor::Task(p);
            Step::Inspect(Probe::Task(self.tasks[p]))
        } else {
            self.cursor = Cursor::Idle;
            Step::Pending { wake: false }
        }
    }

    fn scan_triggers_from(&mut self, i: usize) -> (r: Step)
        requires
            well_formed(old(self)@),
            old(self)@.phase == Phase::WaitingForTrigger,
        ensures
            (final(self)@, r) == scan_triggers(old(self)@, i as nat),
            well_formed(final(self)@),
    {
        if i < self.triggers {
            self.cursor = Cursor::Trigger(i);
            Step::Inspect(Probe::Trigger(i))
        } else {
            self.scan_tasks_from(0)
        }
    }

    /// Starts an evaluation call: while waiting for a trigger, the scan begins
    /// with the first trigger, then the first task; while running the cleanup
    /// action, that action is inspected; while joining, the last task is
    /// inspected, or the combinator is done when no task is left.
    pub fn poll(&mut self) -> (r: Step)
        requires
            well_formed(old(self)@),
            old(self)@.cursor == Cursor::Idle,
        ensures
            (final(self)@, r) == begin(old(self)@),
            well_formed(final(self)@),
    {
        match self.phase {
            Phase::WaitingForTrigger => self.scan_triggers_from(0),
            Phase::RunningAction => {
                self.cursor = Cursor::Cleanup;
                Step::Inspect(Probe::Cleanup)
            },
            Phase::JoiningTasks => {
                let n = self.tasks.len();
                if n == 0 {
                    Step::Done
                } else {
                    self.cursor = Cursor::LastTask;
                    Step::Inspect(Probe::Task(self.tasks[n - 1]))
                }
            },
        }
    }

    /// Takes the host's answer on the computation that the last step named.
    ///
    /// A resolved trigger or task ends the wait (a task is removed), a
    /// resolved cleanup action starts the join, a resolved last task is
    /// removed; each ends the call with a wake. An unresolved trigger or task
    /// moves the scan on to the next one; an unresolved cleanup action or last
    /// task ends the call without a wake.
    pub fn answer(&mut self, ready: bool) -> (r: Step)
        requires
            well_formed(old(self)@),
            old(self)@.cursor != Cursor::Idle,
        ensures
            (final(self)@, r) == resume(old(self)@, ready),
            well_formed(final(self)@),
    {
        match self.cursor {
            Cursor::Trigger(i) => {
                if ready {
                    self.phase = Phase::RunningAction;
                    self.cursor = Cursor::Idle;
                    Step::Pending { wake: true }
                } else {
                    self.scan_triggers_from(i + 1)
                }
            },
            Cursor::Task(p) => {
                if ready {
                    let ghost before = self.tasks@;
                    self.tasks.remove(p);
                    assert forall|a: int, b: int|
                        0 <= a < b < self.tasks@.len() implies self.tasks@[a] < self.tasks@[b] by {
                        let a0 = if a < p { a } else { a + 1 };
                        let b0 = if b < p { b } else { b + 1 };
                        assert(self.tasks@[a] == before[a0]);
                        assert(self.tasks@[b] == before[b0]);
                    }
                    self.phase = Phase::RunningAction;
                    self.cursor = Cursor::Idle;
                    Step::Pending { wake: true }
                } else {
                    let n = self.tasks.len();
                    assert(p < n);
                    self.scan_tasks_from(p + 1)
                }
            },
            Cursor::Cleanup => {
                self.cursor = Cursor::Idle;
                if ready {
                    self.phase = Phase::JoiningTasks;
                    Step::Pending { wake: true }
                } else {
                    Step::Pending { wake: false }
                }
            },
            Cursor::LastTask => {
                self.cursor = Cursor::Idle;
                if ready {
                    self.tasks.pop();
                    Step::Pending { wake: true }
                } else {
                    Step::Pending { wake: false }
                }
            },
            Cursor::Idle => Step::Pending { wake: false },
        }
    }
}

} // verus!
