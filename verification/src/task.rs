use vstd::prelude::*;

verus! {

/// The abstract state of a task: its identifier and the two lifecycle flags.
///
/// `running` is true strictly while the task's work is in flight; `stopping`
/// is the cooperative-cancellation request flag, observed voluntarily by the
/// work body rather than forcibly interrupting it.
#[verifier::ext_equal]
pub ghost struct TaskView {
    pub id: Seq<char>,
    pub running: bool,
    pub stopping: bool,
}

/// What a cancellation request does to a task's state: a cooperative stop is
/// requested only while the task is running; on a task that is not running
/// there is nothing to stop, and the request leaves the task unchanged.
pub open spec fn spec_cancel(t: TaskView) -> TaskView {
    if t.running {
        TaskView { stopping: true, ..t }
    } else {
        t
    }
}

/// Law: requesting a stop is idempotent. A second cancellation of an
/// already-stopping task leaves `stopping` set and changes nothing else;
/// on an idle task both requests are no-ops.
pub proof fn lemma_cancel_idempotent(t: TaskView)
    ensures
        spec_cancel(spec_cancel(t)) == spec_cancel(t),
{
}

/// The capability set of a cancellable unit of work: identity, the two
/// lifecycle flags, a work-body hook, and the execution and cancellation
/// protocol built from them. Implementors supply the flag storage and the
/// work body; `execute` and `cancel` come with the trait.
pub trait ITask: View<V = TaskView> + Sized {
    /// Constructs a task in the initial state: not running, not stopping.
    fn new(id: String) -> (t: Self)
        ensures
            t@ == (TaskView { id: id@, running: false, stopping: false }),
    ;

    fn set_id(&mut self, id: String)
        ensures
            final(self)@ == (TaskView { id: id@, ..old(self)@ }),
    ;

    fn get_id(&self) -> (r: String)
        ensures
            r@ == self@.id,
    ;

    fn set_running_state(&mut self, is_running: bool)
        ensures
            final(self)@ == (TaskView { running: is_running, ..old(self)@ }),
    ;

    fn is_running(&self) -> (r: bool)
        ensures
            r == self@.running,
    ;

    fn set_stopping(&mut self, is_stopping: bool)
        ensures
            final(self)@ == (TaskView { stopping: is_stopping, ..old(self)@ }),
    ;

    fn is_stopping(&self) -> (r: bool)
        ensures
            r == self@.stopping,
    ;

    /// The work-body hook. It checks the cooperative-stop flag once, at its
    /// very start, and enters the work only if no stop was requested; the
    /// result reports whether the work ran. A stop requested after this
    /// check does not abort work already in flight.
    fn on_execute(&self) -> (ran: bool)
        ensures
            ran == !self@.stopping,
    ;

    /// Runs the task once: marks it running with a clean cancellation slate,
    /// invokes the work-body hook, and marks it not running on exit. Every
    /// execution attempt therefore ends idle with both flags cleared.
    fn execute(&mut self)
        ensures
            final(self)@ == (TaskView { id: old(self)@.id, running: false, stopping: false }),
    {
        self.set_running_state(true);
        self.set_stopping(false);
        let _ = self.on_execute();
        self.set_running_state(false);
    }

    /// Requests a cooperative stop: sets `stopping` only if the task is
    /// currently running; otherwise there is nothing to stop and the call
    /// changes nothing.
    fn cancel(&mut self)
        ensures
            final(self)@ == spec_cancel(old(self)@),
    {
        if self.is_running() {
            self.set_stopping(true);
        }
    }
}

/// A concrete task: an identifier and the two lifecycle flags. Its work body
/// is empty — it performs only the cooperative-stop check that the hook
/// mandates — so it stands in for any caller-supplied unit of work whose
/// effect is outside this library's concern.
pub struct Task {
    id: String,
    is_running: bool,
    is_stopping: bool,
}

impl View for Task {
    type V = TaskView;

    closed spec fn view(&self) -> TaskView {
        TaskView { id: self.id@, running: self.is_running, stopping: self.is_stopping }
    }
}

impl Clone for Task {
    fn clone(&self) -> (res: Self)
        ensures
            res@ == self@,
    {
        Task { id: self.id.clone(), is_running: self.is_running, is_stopping: self.is_stopping }
    }
}

impl ITask for Task {
    fn new(id: String) -> (t: Self) {
        Task { id, is_running: false, is_stopping: false }
    }

    fn set_id(&mut self, id: String) {
        self.id = id;
    }

    fn get_id(&self) -> (r: String) {
        self.id.clone()
    }

    fn set_running_state(&mut self, is_running: bool) {
        self.is_running = is_running;
    }

    fn is_running(&self) -> (r: bool) {
        self.is_running
    }

    fn set_stopping(&mut self, is_stopping: bool) {
        self.is_stopping = is_stopping;
    }

    fn is_stopping(&self) -> (r: bool) {
        self.is_stopping
    }

    fn on_execute(&self) -> (ran: bool) {
        !self.is_stopping
    }
}

} // verus!
