//! What holds of every run of the combinator, whatever the host answers.
use vstd::prelude::*;

use crate::model::{
    begin, initial, resume, scan_tasks, scan_triggers, strictly_increasing, well_formed, Cursor,
    Phase, Probe, ShutdownState, Step,
};

verus! {

/// One call of the host: `poll` between evaluation calls, otherwise `answer`
/// with `ready` as the outcome of the inspected computation.
pub open spec fn next(s: ShutdownState, ready: bool) -> (ShutdownState, Step) {
    if s.cursor == Cursor::Idle {
        begin(s)
    } else {
        resume(s, ready)
    }
}

/// The state after the host's calls, `ready[k]` being the answer given at the
/// `k`-th call (unused where that call is a `poll`).
pub open spec fn run(s: ShutdownState, ready: Seq<bool>) -> ShutdownState
    decreases ready.len(),
{
    if ready.len() == 0 {
        s
    } else {
        run(next(s, ready[0]).0, ready.drop_first())
    }
}

/// The steps handed back over the same calls.
pub open spec fn trace(s: ShutdownState, ready: Seq<bool>) -> Seq<Step>
    decreases ready.len(),
{
    if ready.len() == 0 {
        Seq::empty()
    } else {
        seq![next(s, ready[0]).1] + trace(next(s, ready[0]).0, ready.drop_first())
    }
}

/// How many of the same calls removed a task.
pub open spec fn removals(s: ShutdownState, ready: Seq<bool>) -> nat
    decreases ready.len(),
{
    if ready.len() == 0 {
        0
    } else {
        let t = next(s, ready[0]).0;
        (if t.tasks.len() < s.tasks.len() { 1nat } else { 0nat }) + removals(t, ready.drop_first())
    }
}

/// Carries on an evaluation call: answers the inspected computations in turn
/// until the call ends or the answers run out.
pub open spec fn feed(at: (ShutdownState, Step), ready: Seq<bool>) -> (ShutdownState, Step)
    decreases ready.len(),
{
    if at.1 is Inspect && ready.len() > 0 {
        feed(resume(at.0, ready[0]), ready.drop_first())
    } else {
        at
    }
}

/// One whole evaluation call, with `ready` as the answers in order.
pub open spec fn evaluate(s: ShutdownState, ready: Seq<bool>) -> (ShutdownState, Step) {
    feed(begin(s), ready)
}

pub open spec fn rank(p: Phase) -> int {
    match p {
        Phase::WaitingForTrigger => 0,
        Phase::RunningAction => 1,
        Phase::JoiningTasks => 2,
    }
}

/// Every call keeps the state well formed.
pub proof fn lemma_next_well_formed(s: ShutdownState, ready: bool)
    requires
        well_formed(s),
    ensures
        well_formed(next(s, ready).0),
{
    if s.cursor != Cursor::Idle && ready {
        if let Cursor::Task(p) = s.cursor {
            let t = s.tasks.remove(p as int);
            assert forall|a: int, b: int| 0 <= a < b < t.len() implies t[a] < t[b] by {
                let a0 = if a < p { a } else { a + 1 };
                let b0 = if b < p { b } else { b + 1 };
                assert(t[a] == s.tasks[a0]);
                assert(t[b] == s.tasks[b0]);
            }
            assert(strictly_increasing(t));
        }
    }
}

/// Phases only move forward, one at a time: waiting, running the cleanup
/// action, joining; and the triggers are never touched.
pub proof fn lemma_phase_never_goes_back(s: ShutdownState, ready: bool)
    requires
        well_formed(s),
    ensures
        rank(next(s, ready).0.phase) >= rank(s.phase),
        rank(next(s, ready).0.phase) <= rank(s.phase) + 1,
        next(s, ready).0.triggers == s.triggers,
{
}

proof fn lemma_run_well_formed(s: ShutdownState, ready: Seq<bool>)
    requires
        well_formed(s),
    ensures
        well_formed(run(s, ready)),
    decreases ready.len(),
{
    if ready.len() > 0 {
        lemma_next_well_formed(s, ready[0]);
        lemma_run_well_formed(next(s, ready[0]).0, ready.drop_first());
    }
}

proof fn lemma_run_take(s: ShutdownState, ready: Seq<bool>, k: int)
    requires
        0 <= k < ready.len(),
    ensures
        run(s, ready.take(k + 1)) == next(run(s, ready.take(k)), ready[k]).0,
        trace(s, ready)[k] == next(run(s, ready.take(k)), ready[k]).1,
        trace(s, ready).len() == ready.len(),
    decreases k,
{
    let t = next(s, ready[0]).0;
    let rest = ready.drop_first();
    assert(ready.take(k + 1).drop_first() =~= rest.take(k));
    lemma_trace_len(t, rest);
    if k > 0 {
        assert(ready.take(k).drop_first() =~= rest.take(k - 1));
        lemma_run_take(t, rest, k - 1);
        assert(run(s, ready.take(k)) == run(t, rest.take(k - 1)));
        assert(run(s, ready.take(k + 1)) == run(t, rest.take(k)));
    } else {
        assert(ready.take(0) =~= Seq::<bool>::empty());
        assert(rest.take(0) =~= Seq::<bool>::empty());
        assert(run(s, ready.take(1)) == run(t, rest.take(0)));
    }
}

proof fn lemma_trace_len(s: ShutdownState, ready: Seq<bool>)
    ensures
        trace(s, ready).len() == ready.len(),
    decreases ready.len(),
{
    if ready.len() > 0 {
        lemma_trace_len(next(s, ready[0]).0, ready.drop_first());
    }
}

/// With no trigger and no task, the combinator stays waiting forever: every
/// evaluation call ends at once without a wake, and it is never done.
pub proof fn lemma_nothing_to_wait_for(s: ShutdownState, ready: Seq<bool>)
    requires
        well_formed(s),
        s.triggers == 0,
        s.tasks.len() == 0,
        s.phase == Phase::WaitingForTrigger,
    ensures
        run(s, ready) == s,
        forall|k: int| 0 <= k < ready.len() ==> trace(s, ready)[k] == (Step::Pending { wake: false }),
    decreases ready.len(),
{
    lemma_trace_len(s, ready);
    if ready.len() > 0 {
        assert(next(s, ready[0]).0 == s);
        lemma_nothing_to_wait_for(s, ready.drop_first());
        assert forall|k: int| 0 <= k < ready.len() implies trace(s, ready)[k] == (Step::Pending {
            wake: false,
        }) by {
            if k > 0 {
                assert(trace(s, ready)[k] == trace(s, ready.drop_first())[k - 1]);
            }
        }
    }
}

proof fn lemma_scan_to_trigger(s: ShutdownState, i: nat, j: nat, ready: Seq<bool>)
    requires
        well_formed(s),
        s.phase == Phase::WaitingForTrigger,
        i <= j < s.triggers,
        ready.len() > j - i,
        forall|k: int| 0 <= k < j - i ==> !ready[k],
        ready[j - i],
    ensures
        feed(scan_triggers(s, i), ready) == (ShutdownState {
            phase: Phase::RunningAction,
            cursor: Cursor::Idle,
            ..s
        }, Step::Pending { wake: true }),
    decreases j - i,
{
    let at = scan_triggers(s, i);
    assert(at.1 is Inspect);
    if i < j {
        assert(!ready[0]);
        assert forall|k: int| 0 <= k < j - (i + 1) implies !ready.drop_first()[k] by {
            assert(ready.drop_first()[k] == ready[k + 1]);
        }
        assert(feed(at, ready) == feed(resume(at.0, ready[0]), ready.drop_first()));
        assert(resume(at.0, ready[0]) == scan_triggers(at.0, i + 1));
        lemma_scan_to_trigger(at.0, i + 1, j, ready.drop_first());
    } else {
        let done = resume(at.0, ready[0]);
        assert(feed(done, ready.drop_first()) == done);
    }
}

/// When the `j`-th trigger is the first one to resolve in an evaluation call,
/// that call moves the combinator on to its cleanup action with a wake, and
/// neither a later trigger nor any task is inspected.
pub proof fn lemma_first_trigger_starts_cleanup(s: ShutdownState, j: nat, ready: Seq<bool>)
    requires
        well_formed(s),
        s.cursor == Cursor::Idle,
        s.phase == Phase::WaitingForTrigger,
        j < s.triggers,
        ready.len() > j,
        forall|k: int| 0 <= k < j ==> !ready[k],
        ready[j as int],
    ensures
        evaluate(s, ready) == (ShutdownState {
            phase: Phase::RunningAction,
            cursor: Cursor::Idle,
            ..s
        }, Step::Pending { wake: true }),
{
    lemma_scan_to_trigger(s, 0, j, ready);
}

/// Whether a step asks for a trigger to be inspected.
pub open spec fn inspects_trigger(st: Step) -> bool {
    match st {
        Step::Inspect(Probe::Trigger(_)) => true,
        _ => false,
    }
}

/// Once the wait for a trigger is over, the combinator never waits again and
/// never inspects a trigger again, whatever the host answers.
pub proof fn lemma_triggers_left_behind(s: ShutdownState, ready: Seq<bool>)
    requires
        well_formed(s),
        s.phase != Phase::WaitingForTrigger,
    ensures
        run(s, ready).phase != Phase::WaitingForTrigger,
        forall|k: int| 0 <= k < ready.len() ==> !inspects_trigger(#[trigger] trace(s, ready)[k]),
    decreases ready.len(),
{
    lemma_trace_len(s, ready);
    if ready.len() > 0 {
        let t = next(s, ready[0]).0;
        lemma_next_well_formed(s, ready[0]);
        lemma_triggers_left_behind(t, ready.drop_first());
        assert forall|k: int| 0 <= k < ready.len() implies !inspects_trigger(
            #[trigger] trace(s, ready)[k],
        ) by {
            if k > 0 {
                assert(trace(s, ready)[k] == trace(t, ready.drop_first())[k - 1]);
            }
        }
    }
}

/// The join begins only on a call that reports the cleanup action resolved,
/// and no task is removed while the cleanup action runs.
pub proof fn lemma_cleanup_precedes_join(s: ShutdownState, ready: bool)
    requires
        well_formed(s),
        s.phase != Phase::JoiningTasks,
    ensures
        next(s, ready).0.phase == Phase::JoiningTasks ==> {
            &&& s.cursor == Cursor::Cleanup
            &&& ready
            &&& next(s, ready).0.tasks == s.tasks
        },
        s.phase == Phase::RunningAction ==> next(s, ready).0.tasks == s.tasks,
{
}

/// Over any run that reaches the join, some earlier call reported the cleanup
/// action resolved, and that call started the join.
pub proof fn lemma_cleanup_resolved_before_join(s: ShutdownState, ready: Seq<bool>, k: int)
    requires
        well_formed(s),
        s.phase != Phase::JoiningTasks,
        0 <= k <= ready.len(),
        run(s, ready.take(k)).phase == Phase::JoiningTasks,
    ensures
        exists|m: int|
            0 <= m < k && run(s, ready.take(m)).cursor == Cursor::Cleanup && ready[m]
                && #[trigger] run(s, ready.take(m + 1)).phase == Phase::JoiningTasks,
    decreases k,
{
    if k == 0 {
        assert(ready.take(0) =~= Seq::<bool>::empty());
    } else {
        let p = run(s, ready.take(k - 1));
        lemma_run_take(s, ready, k - 1);
        if p.phase == Phase::JoiningTasks {
            lemma_cleanup_resolved_before_join(s, ready, k - 1);
            let m = choose|m: int|
                0 <= m < k - 1 && run(s, ready.take(m)).cursor == Cursor::Cleanup && ready[m]
                    && #[trigger] run(s, ready.take(m + 1)).phase == Phase::JoiningTasks;
            assert(run(s, ready.take(m + 1)).phase == Phase::JoiningTasks);
        } else {
            lemma_run_well_formed(s, ready.take(k - 1));
            lemma_cleanup_precedes_join(p, ready[k - 1]);
            assert(run(s, ready.take((k - 1) + 1)).phase == Phase::JoiningTasks);
        }
    }
}

/// Every call removes at most one task: while waiting, the first task found
/// resolved; while joining, the last task once it resolved. Only a call that
/// begins the evaluation in the join with no task left reports the end.
pub proof fn lemma_one_removal_at_a_time(s: ShutdownState, ready: bool)
    requires
        well_formed(s),
    ensures
        ({
            let t = next(s, ready).0;
            ||| t.tasks == s.tasks
            ||| (s.phase == Phase::WaitingForTrigger && ready && s.cursor is Task && t.tasks
                == s.tasks.remove(s.cursor->Task_0 as int))
            ||| (s.phase == Phase::JoiningTasks && ready && s.cursor == Cursor::LastTask && t.tasks
                == s.tasks.drop_last())
        }),
        next(s, ready).1 == Step::Done <==> (s.cursor == Cursor::Idle && s.phase
            == Phase::JoiningTasks && s.tasks.len() == 0),
{
}

/// Over any run, the tasks still outstanding and the calls that removed one
/// add up to the tasks at the start.
pub proof fn lemma_removal_count(s: ShutdownState, ready: Seq<bool>)
    requires
        well_formed(s),
    ensures
        run(s, ready).tasks.len() + removals(s, ready) == s.tasks.len(),
    decreases ready.len(),
{
    if ready.len() > 0 {
        lemma_one_removal_at_a_time(s, ready[0]);
        lemma_next_well_formed(s, ready[0]);
        lemma_removal_count(next(s, ready[0]).0, ready.drop_first());
    }
}

/// From construction with `n` tasks, the combinator is done only in the join,
/// after the cleanup action was reported resolved, and once exactly `n` calls
/// have removed a task.
pub proof fn lemma_done_after_all_removed(triggers: nat, n: nat, ready: Seq<bool>, k: int)
    requires
        triggers <= usize::MAX,
        n <= usize::MAX,
        0 <= k < ready.len(),
        trace(initial(triggers, n), ready)[k] == Step::Done,
    ensures
        removals(initial(triggers, n), ready.take(k)) == n,
        run(initial(triggers, n), ready.take(k)).phase == Phase::JoiningTasks,
        run(initial(triggers, n), ready.take(k)).tasks.len() == 0,
        exists|m: int|
            0 <= m < k && run(initial(triggers, n), ready.take(m)).cursor == Cursor::Cleanup
                && ready[m],
{
    let s0 = initial(triggers, n);
    assert(well_formed(s0));
    let p = run(s0, ready.take(k));
    lemma_run_take(s0, ready, k);
    lemma_run_well_formed(s0, ready.take(k));
    lemma_one_removal_at_a_time(p, ready[k]);
    lemma_removal_count(s0, ready.take(k));
    lemma_cleanup_resolved_before_join(s0, ready, k);
}

} // verus!
