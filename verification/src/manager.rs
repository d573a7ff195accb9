use vstd::prelude::*;

use crate::task::ITask;
use crate::task::Task;
use crate::task::TaskView;
use crate::task::spec_cancel;

verus! {

/// The errors the manager reports: a concurrency ceiling below one at
/// construction, and a cancellation request for an identifier that no
/// pending task carries.
#[derive(Clone, Copy, Debug, PartialEq, Eq, Structural)]
pub enum TaskError {
    InvalidMaxConcurrency,
    TaskNotFound,
}

/// The abstract state of a manager: the pending tasks in insertion order
/// (earlier-added tasks are attempted first within a wave) and the
/// concurrency ceiling of one wave.
#[verifier::ext_equal]
pub ghost struct ManagerView {
    pub tasks: Seq<TaskView>,
    pub max_concurrency: int,
}

/// The states of a sequence of tasks.
pub open spec fn task_views(s: Seq<Task>) -> Seq<TaskView> {
    Seq::new(s.len(), |i: int| s[i]@)
}

/// The pending tasks left after one bounded wave over `tasks` with `budget`
/// launch slots: scanning in insertion order, a task that is not running is
/// launched — and so leaves pending when the wave completes — while a slot
/// remains; a task already running is skipped and kept; once the budget is
/// spent, the rest is kept untouched.
pub open spec fn wave_remaining(tasks: Seq<TaskView>, budget: int) -> Seq<TaskView>
    decreases tasks.len(),
{
    if tasks.len() == 0 || budget <= 0 {
        tasks
    } else if !tasks[0].running {
        wave_remaining(tasks.subrange(1, tasks.len() as int), budget - 1)
    } else {
        seq![tasks[0]] + wave_remaining(tasks.subrange(1, tasks.len() as int), budget)
    }
}

/// How many tasks one wave launches.
pub open spec fn wave_launched(tasks: Seq<TaskView>, budget: int) -> int {
    tasks.len() - wave_remaining(tasks, budget).len()
}

/// The pending tasks left after `n` successive waves.
pub open spec fn waves_remaining(tasks: Seq<TaskView>, budget: int, n: nat) -> Seq<TaskView>
    decreases n,
{
    if n == 0 {
        tasks
    } else {
        waves_remaining(wave_remaining(tasks, budget), budget, (n - 1) as nat)
    }
}

/// Index of the first task in `tasks` whose identifier is `id`, or -1 if no
/// task carries it.
pub open spec fn find_task(tasks: Seq<TaskView>, id: Seq<char>) -> int
    decreases tasks.len(),
{
    if tasks.len() == 0 {
        -1
    } else if tasks[0].id == id {
        0
    } else if find_task(tasks.subrange(1, tasks.len() as int), id) == -1 {
        -1
    } else {
        find_task(tasks.subrange(1, tasks.len() as int), id) + 1
    }
}

/// What `find_task` finds: an index in range, carrying the identifier, with
/// no earlier match; or -1 exactly when no task carries the identifier.
pub proof fn lemma_find_task_props(tasks: Seq<TaskView>, id: Seq<char>)
    ensures
        -1 <= find_task(tasks, id) < tasks.len(),
        find_task(tasks, id) >= 0 ==> tasks[find_task(tasks, id)].id == id,
        forall|k: int|
            0 <= k < tasks.len() && (find_task(tasks, id) == -1 || k < find_task(tasks, id))
                ==> (#[trigger] tasks[k]).id != id,
    decreases tasks.len(),
{
    if tasks.len() == 0 {
    } else if tasks[0].id == id {
    } else {
        let rest = tasks.subrange(1, tasks.len() as int);
        lemma_find_task_props(rest, id);
        assert forall|k: int|
            0 <= k < tasks.len() && (find_task(tasks, id) == -1 || k < find_task(tasks, id))
                implies (#[trigger] tasks[k]).id != id by {
            if k > 0 {
                assert(tasks[k] == rest[k - 1]);
            }
        }
    }
}

/// Law: a wave launches at most `budget` tasks, for every budget and every
/// pending sequence; the launch count is never negative.
pub proof fn lemma_wave_bounded(tasks: Seq<TaskView>, budget: int)
    requires
        budget >= 0,
    ensures
        0 <= wave_launched(tasks, budget) <= budget,
    decreases tasks.len(),
{
    if tasks.len() == 0 || budget <= 0 {
    } else if !tasks[0].running {
        lemma_wave_bounded(tasks.subrange(1, tasks.len() as int), budget - 1);
    } else {
        lemma_wave_bounded(tasks.subrange(1, tasks.len() as int), budget);
    }
}

/// When no pending task is running, one wave launches the first
/// `min(budget, len)` tasks and keeps exactly the rest, in order.
pub proof fn lemma_idle_wave_skips_front(tasks: Seq<TaskView>, budget: int)
    requires
        budget >= 0,
        forall|i: int| 0 <= i < tasks.len() ==> !(#[trigger] tasks[i]).running,
    ensures
        wave_remaining(tasks, budget) == if budget >= tasks.len() {
            Seq::<TaskView>::empty()
        } else {
            tasks.subrange(budget, tasks.len() as int)
        },
    decreases tasks.len(),
{
    if tasks.len() == 0 {
        assert(wave_remaining(tasks, budget) =~= Seq::<TaskView>::empty());
    } else if budget <= 0 {
        assert(wave_remaining(tasks, budget) =~= tasks.subrange(0, tasks.len() as int));
    } else {
        let rest = tasks.subrange(1, tasks.len() as int);
        assert(forall|i: int| 0 <= i < rest.len() ==> !(#[trigger] rest[i]).running);
        lemma_idle_wave_skips_front(rest, budget - 1);
        if budget < tasks.len() {
            assert(rest.subrange(budget - 1, rest.len() as int)
                =~= tasks.subrange(budget, tasks.len() as int));
        }
    }
}

/// Law: tasks added and never cancelled are exhausted. When none of the
/// pending tasks is running and the ceiling is at least one, `n` waves with
/// `n * budget` at least the number of pending tasks leave pending empty.
pub proof fn lemma_enough_waves_drain(tasks: Seq<TaskView>, budget: int, n: nat)
    requires
        budget >= 1,
        forall|i: int| 0 <= i < tasks.len() ==> !(#[trigger] tasks[i]).running,
        tasks.len() <= n * budget,
    ensures
        waves_remaining(tasks, budget, n).len() == 0,
    decreases n,
{
    if n == 0 {
        assert(n * budget == 0) by (nonlinear_arith)
            requires n == 0,
        ;
    } else {
        lemma_idle_wave_skips_front(tasks, budget);
        let rest = wave_remaining(tasks, budget);
        assert(forall|i: int| 0 <= i < rest.len() ==> !(#[trigger] rest[i]).running);
        assert((n - 1) * budget == n * budget - budget) by (nonlinear_arith);
        lemma_enough_waves_drain(rest, budget, (n - 1) as nat);
    }
}

/// A bounded-concurrency task manager: an ordered pending collection and a
/// positive concurrency ceiling per wave. Tasks are attempted in insertion
/// order, never retried, and leave pending either by being launched in a
/// wave or by explicit cancellation.
pub struct TaskManager {
    tasks: Vec<Task>,
    max_concurrency: i32,
}

impl View for TaskManager {
    type V = ManagerView;

    closed spec fn view(&self) -> ManagerView {
        ManagerView {
            tasks: task_views(self.tasks@),
            max_concurrency: self.max_concurrency as int,
        }
    }
}

impl TaskManager {
    /// Constructs a manager with the given concurrency ceiling; a ceiling
    /// below one is rejected at construction.
    pub fn new(max_concurrency: i32) -> (r: Result<TaskManager, TaskError>)
        ensures
            max_concurrency >= 1 ==> (r matches Ok(m) && m@ == (ManagerView {
                tasks: Seq::<TaskView>::empty(),
                max_concurrency: max_concurrency as int,
            })),
            max_concurrency < 1 ==> r == Result::<TaskManager, TaskError>::Err(
                TaskError::InvalidMaxConcurrency,
            ),
    {
        if max_concurrency < 1 {
            Err(TaskError::InvalidMaxConcurrency)
        } else {
            let m = TaskManager { tasks: Vec::new(), max_concurrency };
            proof {
                assert(m@.tasks =~= Seq::<TaskView>::empty());
            }
            Ok(m)
        }
    }

    /// Appends a task to the pending collection. Identifiers are not checked
    /// for uniqueness: the caller is responsible for not injecting duplicates
    /// if deterministic cancellation by identifier matters.
    pub fn add_task(&mut self, task: Task)
        ensures
            final(self)@.tasks == old(self)@.tasks.push(task@),
            final(self)@.max_concurrency == old(self)@.max_concurrency,
    {
        self.tasks.push(task);
        proof {
            assert(self@.tasks =~= old(self)@.tasks.push(task@));
        }
    }

    /// How many tasks are pending.
    pub fn pending_count(&self) -> (n: usize)
        ensures
            n == self@.tasks.len(),
    {
        self.tasks.len()
    }

    /// Borrows the pending task at the given position, in insertion order.
    pub fn task_at(&self, i: usize) -> (t: &Task)
        requires
            i < self@.tasks.len(),
        ensures
            t@ == self@.tasks[i as int],
    {
        &self.tasks[i]
    }

    /// The identifiers of the pending tasks, in insertion order.
    #[verifier::loop_isolation(false)]
    pub fn pending_ids(&self) -> (ids: Vec<String>)
        ensures
            ids@.len() == self@.tasks.len(),
            forall|i: int| 0 <= i < ids@.len() ==> (#[trigger] ids@[i])@ == self@.tasks[i].id,
    {
        let mut ids: Vec<String> = Vec::new();
        let mut i: usize = 0;
        while i < self.tasks.len()
            invariant
                i <= self.tasks.len(),
                ids@.len() == i,
                forall|k: int| 0 <= k < i ==> (#[trigger] ids@[k])@ == self@.tasks[k].id,
            decreases self.tasks.len() - i,
        {
            ids.push(self.tasks[i].get_id());
            i = i + 1;
        }
        ids
    }

    /// Runs one bounded wave: scans pending in insertion order, launches up
    /// to `max_concurrency` tasks that are not already running, waits for
    /// all of them, and removes every launched task from pending regardless
    /// of outcome. Tasks not selected — because the wave was full or because
    /// they were already running — remain pending, untouched and in order.
    /// With nothing eligible the wave is empty and the call changes nothing.
    #[verifier::loop_isolation(false)]
    pub fn execute(&mut self)
        ensures
            final(self)@.tasks == wave_remaining(old(self)@.tasks, old(self)@.max_concurrency),
            final(self)@.max_concurrency == old(self)@.max_concurrency,
    {
        let ghost orig: Seq<TaskView> = self@.tasks;
        let ghost budget: int = self@.max_concurrency;
        let mut kept: Vec<Task> = Vec::new();
        let mut launched: i32 = 0;
        while self.tasks.len() > 0
            invariant
                self.max_concurrency as int == budget,
                0 <= launched,
                task_views(kept@) + wave_remaining(task_views(self.tasks@), budget - launched as int)
                    == wave_remaining(orig, budget),
            decreases self.tasks.len(),
        {
            let ghost before: Seq<TaskView> = task_views(self.tasks@);
            let mut t = self.tasks.remove(0);
            proof {
                assert(task_views(self.tasks@) =~= before.subrange(1, before.len() as int));
            }
            if launched < self.max_concurrency && !t.is_running() {
                t.execute();
                launched = launched + 1;
            } else {
                let ghost kept_before: Seq<TaskView> = task_views(kept@);
                kept.push(t);
                proof {
                    assert(task_views(kept@) =~= kept_before.push(t@));
                    assert(task_views(kept@) + wave_remaining(task_views(self.tasks@),
                        budget - launched as int) =~= kept_before + (seq![before[0]]
                        + wave_remaining(before.subrange(1, before.len() as int),
                        budget - launched as int)));
                }
            }
        }
        proof {
            assert(task_views(self.tasks@) =~= Seq::<TaskView>::empty());
            assert(task_views(kept@) + wave_remaining(task_views(self.tasks@), budget
                - launched as int) =~= task_views(kept@));
        }
        self.tasks = kept;
    }

    /// Removes the first pending task whose identifier matches, reporting
    /// the removed task as a detached handle; with `is_stop_task` a running
    /// match is first asked to stop cooperatively. Reports an error, and
    /// changes nothing, when no pending task carries the identifier.
    #[verifier::loop_isolation(false)]
    pub fn remove_task(&mut self, id: String, is_stop_task: bool) -> (r: Result<Task, TaskError>)
        ensures
            final(self)@.max_concurrency == old(self)@.max_concurrency,
            find_task(old(self)@.tasks, id@) == -1 ==> r == Result::<Task, TaskError>::Err(
                TaskError::TaskNotFound,
            ) && final(self)@ == old(self)@,
            find_task(old(self)@.tasks, id@) >= 0 ==> {
                let i = find_task(old(self)@.tasks, id@);
                &&& r matches Ok(t) && t@ == if is_stop_task {
                    spec_cancel(old(self)@.tasks[i])
                } else {
                    old(self)@.tasks[i]
                }
                &&& final(self)@.tasks == old(self)@.tasks.remove(i)
            },
    {
        let ghost orig: Seq<TaskView> = self@.tasks;
        let ghost orig_max: int = self@.max_concurrency;
        let mut i: usize = 0;
        let n: usize = self.tasks.len();
        while i < n
            invariant
                n == self.tasks.len(),
                i <= n,
                self@.tasks == orig,
                self@.max_concurrency == orig_max,
                forall|k: int| 0 <= k < i ==> (#[trigger] orig[k]).id != id@,
            decreases n - i,
        {
            let tid = self.tasks[i].get_id();
            if tid == id {
                let mut t = self.tasks.remove(i);
                if is_stop_task {
                    t.cancel();
                }
                proof {
                    lemma_find_task_props(orig, id@);
                    let f: int = find_task(orig, id@);
                    assert(orig[i as int].id == id@);
                    if f == -1 || f > i {
                        assert(orig[i as int].id != id@);
                    } else if f < i {
                        assert(orig[f].id == id@);
                        assert(orig[f].id != id@);
                    }
                    assert(f == i);
                    assert(task_views(self.tasks@) =~= orig.remove(i as int));
                }
                return Ok(t);
            }
            i = i + 1;
        }
        proof {
            lemma_find_task_props(orig, id@);
            let f: int = find_task(orig, id@);
            if f >= 0 {
                assert(orig[f].id == id@);
                assert(orig[f].id != id@);
            }
            assert(self@ =~= old(self)@);
        }
        Err(TaskError::TaskNotFound)
    }

    /// Best-effort cancellation by identifier: the first pending task whose
    /// identifier matches is asked to stop cooperatively — its stop flag is
    /// set only if it is currently running — and is removed from pending
    /// immediately, without waiting for in-flight work to observe the flag.
    /// The removed task is reported as a detached handle; cancellation of a
    /// task that never started degenerates to plain removal. Reports an
    /// error, and changes nothing, when no pending task carries the
    /// identifier.
    pub fn cancel_task(&mut self, id: String) -> (r: Result<Task, TaskError>)
        ensures
            final(self)@.max_concurrency == old(self)@.max_concurrency,
            find_task(old(self)@.tasks, id@) == -1 ==> r == Result::<Task, TaskError>::Err(
                TaskError::TaskNotFound,
            ) && final(self)@ == old(self)@,
            find_task(old(self)@.tasks, id@) >= 0 ==> {
                let i = find_task(old(self)@.tasks, id@);
                &&& r matches Ok(t) && t@ == spec_cancel(old(self)@.tasks[i])
                &&& final(self)@.tasks == old(self)@.tasks.remove(i)
            },
    {
        self.remove_task(id, true)
    }
}

} // verus!
