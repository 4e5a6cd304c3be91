use graceful_shutdown::{Phase, Probe, ShutdownFuture, Step};

/// A simulated computation: resolves on its `n`-th poll, or never.
struct Sim {
    after: Option<u32>,
    polls: u32,
}

impl Sim {
    fn new(after: Option<u32>) -> Sim {
        Sim { after, polls: 0 }
    }

    fn poll(&mut self) -> bool {
        self.polls += 1;
        match self.after {
            Some(n) => self.polls >= n,
            None => false,
        }
    }
}

struct Host {
    sf: ShutdownFuture,
    triggers: Vec<Sim>,
    tasks: Vec<Sim>,
    cleanup: Sim,
}

impl Host {
    fn new(triggers: &[Option<u32>], tasks: &[Option<u32>], cleanup: Option<u32>) -> Host {
        Host {
            sf: ShutdownFuture::new(triggers.len(), tasks.len()),
            triggers: triggers.iter().map(|a| Sim::new(*a)).collect(),
            tasks: tasks.iter().map(|a| Sim::new(*a)).collect(),
            cleanup: Sim::new(cleanup),
        }
    }

    /// One evaluation call: the probes made, and the step that ended it.
    fn evaluate(&mut self) -> (Vec<Probe>, Step) {
        let mut probes = Vec::new();
        let mut step = self.sf.poll();
        while let Step::Inspect(p) = step {
            probes.push(p);
            let ready = match p {
                Probe::Trigger(i) => self.triggers[i].poll(),
                Probe::Task(id) => self.tasks[id].poll(),
                Probe::Cleanup => self.cleanup.poll(),
            };
            step = self.sf.answer(ready);
        }
        (probes, step)
    }
}

#[test]
fn empty_sets_never_finish() {
    let mut h = Host::new(&[], &[], Some(1));
    for _ in 0..50 {
        let (probes, step) = h.evaluate();
        assert!(probes.is_empty());
        assert_eq!(step, Step::Pending { wake: false });
        assert_eq!(h.sf.phase(), Phase::WaitingForTrigger);
    }
}

#[test]
fn new_starts_waiting_with_all_tasks() {
    let sf = ShutdownFuture::new(2, 4);
    assert_eq!(sf.phase(), Phase::WaitingForTrigger);
    assert_eq!(sf.tasks_left(), 4);
    assert!(!sf.is_inspecting());
}

#[test]
fn first_resolved_trigger_starts_cleanup() {
    let mut h = Host::new(&[None, Some(1), Some(1)], &[None, Some(1)], Some(5));
    let (probes, step) = h.evaluate();
    assert_eq!(probes, vec![Probe::Trigger(0), Probe::Trigger(1)]);
    assert_eq!(step, Step::Pending { wake: true });
    assert_eq!(h.sf.phase(), Phase::RunningAction);
    // the ready task was not inspected, so it is still outstanding
    assert_eq!(h.sf.tasks_left(), 2);
    assert_eq!(h.tasks[1].polls, 0);
}

#[test]
fn triggers_scanned_before_tasks() {
    let mut h = Host::new(&[None, None], &[None, None, Some(1)], Some(1));
    let (probes, step) = h.evaluate();
    assert_eq!(
        probes,
        vec![
            Probe::Trigger(0),
            Probe::Trigger(1),
            Probe::Task(0),
            Probe::Task(1),
            Probe::Task(2)
        ]
    );
    assert_eq!(step, Step::Pending { wake: true });
    assert_eq!(h.sf.phase(), Phase::RunningAction);
    assert_eq!(h.sf.tasks_left(), 2);
}

#[test]
fn nothing_resolved_keeps_waiting_without_wake() {
    let mut h = Host::new(&[None], &[None], Some(1));
    let (probes, step) = h.evaluate();
    assert_eq!(probes, vec![Probe::Trigger(0), Probe::Task(0)]);
    assert_eq!(step, Step::Pending { wake: false });
    assert_eq!(h.sf.phase(), Phase::WaitingForTrigger);
}

#[test]
fn triggers_never_inspected_after_wait() {
    let mut h = Host::new(&[Some(1), Some(2)], &[Some(4)], Some(3));
    for _ in 0..20 {
        let (probes, _) = h.evaluate();
        if h.sf.phase() != Phase::WaitingForTrigger {
            break;
        }
        assert!(!probes.is_empty());
    }
    for _ in 0..20 {
        let (probes, _) = h.evaluate();
        assert!(probes.iter().all(|p| !matches!(p, Probe::Trigger(_))));
        assert_ne!(h.sf.phase(), Phase::WaitingForTrigger);
    }
    assert_eq!(h.triggers[1].polls, 0);
}

#[test]
fn cleanup_runs_to_completion_before_join() {
    let mut h = Host::new(&[Some(1)], &[Some(1), Some(1)], Some(3));
    h.evaluate();
    assert_eq!(h.sf.phase(), Phase::RunningAction);
    for _ in 0..2 {
        let (probes, step) = h.evaluate();
        assert_eq!(probes, vec![Probe::Cleanup]);
        assert_eq!(step, Step::Pending { wake: false });
        assert_eq!(h.sf.phase(), Phase::RunningAction);
        assert_eq!(h.sf.tasks_left(), 2);
    }
    let (probes, step) = h.evaluate();
    assert_eq!(probes, vec![Probe::Cleanup]);
    assert_eq!(step, Step::Pending { wake: true });
    assert_eq!(h.sf.phase(), Phase::JoiningTasks);
    assert_eq!(h.sf.tasks_left(), 2);
    assert_eq!(h.tasks[0].polls, 0);
    assert_eq!(h.tasks[1].polls, 0);
}

#[test]
fn tasks_joined_from_the_tail() {
    let mut h = Host::new(&[Some(1)], &[Some(1), Some(1), Some(1)], Some(1));
    h.evaluate();
    h.evaluate();
    assert_eq!(h.sf.phase(), Phase::JoiningTasks);
    let mut removed = Vec::new();
    loop {
        let (probes, step) = h.evaluate();
        if step == Step::Done {
            assert!(probes.is_empty());
            break;
        }
        assert_eq!(step, Step::Pending { wake: true });
        assert_eq!(probes.len(), 1);
        removed.push(probes[0]);
    }
    assert_eq!(removed, vec![Probe::Task(2), Probe::Task(1), Probe::Task(0)]);
    assert_eq!(h.sf.tasks_left(), 0);
}

#[test]
fn join_waits_on_the_last_task_only() {
    let mut h = Host::new(&[Some(1)], &[Some(1), None], Some(1));
    h.evaluate();
    h.evaluate();
    for _ in 0..10 {
        let (probes, step) = h.evaluate();
        assert_eq!(probes, vec![Probe::Task(1)]);
        assert_eq!(step, Step::Pending { wake: false });
    }
    assert_eq!(h.tasks[0].polls, 0);
    assert_eq!(h.sf.tasks_left(), 2);
}

#[test]
fn single_ready_task_finishes_in_three_calls() {
    let mut h = Host::new(&[], &[Some(1)], Some(1));
    let mut calls = 0;
    loop {
        calls += 1;
        assert!(calls <= 3);
        let (_, step) = h.evaluate();
        if step == Step::Done {
            break;
        }
        assert_eq!(step, Step::Pending { wake: true });
    }
    assert_eq!(calls, 3);
}

#[test]
fn two_tasks_trace() {
    let mut h = Host::new(&[], &[Some(1), Some(3)], Some(1));
    let (probes, step) = h.evaluate();
    assert_eq!(probes, vec![Probe::Task(0)]);
    assert_eq!(step, Step::Pending { wake: true });
    assert_eq!(h.sf.phase(), Phase::RunningAction);
    assert_eq!(h.sf.tasks_left(), 1);

    let (probes, step) = h.evaluate();
    assert_eq!(probes, vec![Probe::Cleanup]);
    assert_eq!(step, Step::Pending { wake: true });
    assert_eq!(h.sf.phase(), Phase::JoiningTasks);

    let (probes, step) = h.evaluate();
    assert_eq!(probes, vec![Probe::Task(1)]);
    assert_eq!(step, Step::Pending { wake: false });

    let (probes, step) = h.evaluate();
    assert_eq!(probes, vec![Probe::Task(1)]);
    assert_eq!(step, Step::Pending { wake: false });

    let (probes, step) = h.evaluate();
    assert_eq!(probes, vec![Probe::Task(1)]);
    assert_eq!(step, Step::Pending { wake: true });
    assert_eq!(h.sf.tasks_left(), 0);

    let (probes, step) = h.evaluate();
    assert!(probes.is_empty());
    assert_eq!(step, Step::Done);
}

#[test]
fn never_resolving_task_stalls_the_join() {
    let mut h = Host::new(&[Some(1)], &[None], Some(1));
    let (probes, step) = h.evaluate();
    assert_eq!(probes, vec![Probe::Trigger(0)]);
    assert_eq!(step, Step::Pending { wake: true });
    let (probes, step) = h.evaluate();
    assert_eq!(probes, vec![Probe::Cleanup]);
    assert_eq!(step, Step::Pending { wake: true });
    assert_eq!(h.sf.phase(), Phase::JoiningTasks);
    for _ in 0..100 {
        let (probes, step) = h.evaluate();
        assert_eq!(probes, vec![Probe::Task(0)]);
        assert_eq!(step, Step::Pending { wake: false });
        assert_eq!(h.sf.phase(), Phase::JoiningTasks);
    }
}

#[test]
fn inspecting_reported_mid_call() {
    let mut sf = ShutdownFuture::new(1, 0);
    assert_eq!(sf.poll(), Step::Inspect(Probe::Trigger(0)));
    assert!(sf.is_inspecting());
    assert_eq!(sf.answer(false), Step::Pending { wake: false });
    assert!(!sf.is_inspecting());
}
