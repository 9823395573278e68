use vstd::prelude::*;

verus! {

/// Mathematical model of a task: its text as a sequence of characters and
/// its creation time as whole seconds since the Unix epoch (UTC).
pub struct TaskView {
    pub text: Seq<char>,
    pub created_at: u64,
}

/// One journal entry: free-form text and a creation timestamp in whole
/// seconds since the Unix epoch (UTC), set once at construction.
#[derive(Debug)]
pub struct Task {
    pub text: String,
    pub created_at: u64,
}

impl View for Task {
    type V = TaskView;

    open spec fn view(&self) -> TaskView {
        TaskView { text: self.text@, created_at: self.created_at }
    }
}

/// The models of a whole sequence of tasks.
pub open spec fn views(ts: Seq<Task>) -> Seq<TaskView> {
    ts.map_values(|t: Task| t@)
}

/// Relies on std::time::SystemTime::now and SystemTime::duration_since:
/// the system clock, read as whole seconds since the Unix epoch.  A clock
/// set before the epoch reads as zero — duration_since signals it as an
/// error, converted here to that sentinel — so the call cannot panic.
/// Nothing is promised of the value.
#[verifier::external_body]
fn now_timestamp() -> u64 {
    match std::time::SystemTime::now().duration_since(std::time::UNIX_EPOCH) {
        Ok(since_epoch) => since_epoch.as_secs(),
        Err(_) => 0,
    }
}

impl Task {
    /// Builds a task with the given text, stamped with the current clock
    /// reading; a clock set before the Unix epoch reads as zero.
    pub fn new(text: String) -> (t: Task)
        ensures
            t@.text == text@,
    {
        let created_at = now_timestamp();
        Task { text, created_at }
    }

    /// Builds a task from both of its fields; the caller supplies the
    /// creation time in whole seconds since the Unix epoch.
    pub fn from_parts(text: String, created_at: u64) -> (t: Task)
        ensures
            t@.text == text@,
            t@.created_at == created_at,
    {
        Task { text, created_at }
    }
}

} // verus!
