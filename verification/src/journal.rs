use vstd::prelude::*;

use crate::encode::encode_tasks;
use crate::encode::persist_tasks;
use crate::parse::parse_tasks;
use crate::parse::sp_tasks;
use crate::task::Task;
use crate::task::TaskView;
use crate::task::views;

verus! {

/// What can go wrong inside the journal itself.  Failures of the machinery
/// around it — a file that a caller required to exist but is absent, or a
/// plain I/O error — stay with that machinery.
#[derive(Debug, Clone, Copy, PartialEq, Eq, Structural)]
pub enum JournalError {
    /// The stored content does not have the task-list form.
    MalformedStore,
    /// A one-based position given to `complete_task` names no task.
    InvalidPosition,
}

/// Reads the task list out of the journal content.  Empty content is the
/// empty list, not an error; content in any other shape than one encoded
/// task list is `MalformedStore`.
pub fn list_tasks(content: &str) -> (r: Result<Vec<Task>, JournalError>)
    ensures
        match r {
            Ok(ts) => sp_tasks(content@) == Some(views(ts@)),
            Err(e) => e == JournalError::MalformedStore && sp_tasks(content@) is None,
        },
        content@.len() == 0 ==> (r matches Ok(ts) && ts@.len() == 0),
{
    match parse_tasks(content) {
        Some(ts) => {
            proof {
                if content@.len() == 0 {
                    assert(views(ts@).len() == 0);
                }
            }
            Ok(ts)
        },
        None => Err(JournalError::MalformedStore),
    }
}

/// Appends one task to the journal: reads the stored list, puts the task
/// last, and yields the new content to store along with the new list.  The
/// list always grows by exactly one.
pub fn add_task(content: &str, task: Task) -> (r: Result<(String, Vec<Task>), JournalError>)
    ensures
        match r {
            Ok((c2, ts2)) => sp_tasks(content@) matches Some(ts0) && {
                &&& views(ts2@) == ts0.push(task@)
                &&& ts2@.len() == ts0.len() + 1
                &&& c2@ == encode_tasks(views(ts2@))
            },
            Err(e) => e == JournalError::MalformedStore && sp_tasks(content@) is None,
        },
{
    let mut tasks = match list_tasks(content) {
        Ok(ts) => ts,
        Err(e) => {
            return Err(e);
        },
    };
    let ghost ts0 = views(tasks@);
    tasks.push(task);
    proof {
        assert(views(tasks@) =~= ts0.push(task@));
    }
    let c2 = persist_tasks(&tasks);
    Ok((c2, tasks))
}

/// The journal content as the store holds it after a `complete_task` call
/// on content `s` with the given one-based position: rewritten only where
/// the position names a task of a well-formed list, held untouched
/// otherwise — a failed call yields no content, so the caller has nothing
/// to write.
pub open spec fn content_after_complete(s: Seq<char>, position: int) -> Seq<char> {
    match sp_tasks(s) {
        Some(ts0) => if 1 <= position <= ts0.len() {
            encode_tasks(ts0.remove(position - 1))
        } else {
            s
        },
        None => s,
    }
}

/// Complete bounds: a one-based position of zero, or past the end of the
/// stored list, names no task, so `complete_task` fails and the store
/// holds byte for byte what it held before the call.
pub proof fn lemma_complete_bounds(s: Seq<char>, ts0: Seq<TaskView>, position: int)
    requires
        sp_tasks(s) == Some(ts0),
        position == 0 || position > ts0.len(),
    ensures
        content_after_complete(s, position) == s,
{
}

/// Removes the task at the given one-based position: reads the stored
/// list, checks the position, takes that task out with every other task
/// kept in order, and yields the new content to store along with the new
/// list.  Position zero, or one past the end, is `InvalidPosition`, and no
/// new content is produced: the store stays as it was.
pub fn complete_task(content: &str, position: usize) -> (r: Result<
    (String, Vec<Task>),
    JournalError,
>)
    ensures
        match r {
            Ok((c2, ts2)) => sp_tasks(content@) matches Some(ts0) && {
                &&& 1 <= position <= ts0.len()
                &&& views(ts2@) == ts0.remove(position - 1)
                &&& ts2@.len() == ts0.len() - 1
                &&& c2@ == encode_tasks(views(ts2@))
            },
            Err(e) => match e {
                JournalError::MalformedStore => sp_tasks(content@) is None,
                JournalError::InvalidPosition => sp_tasks(content@) matches Some(ts0) && (position
                    == 0 || position > ts0.len()),
            },
        },
        match r {
            Ok((c2, _)) => c2@ == content_after_complete(content@, position as int),
            Err(_) => content_after_complete(content@, position as int) == content@,
        },
{
    let mut tasks = match list_tasks(content) {
        Ok(ts) => ts,
        Err(e) => {
            return Err(e);
        },
    };
    if position == 0 || position > tasks.len() {
        return Err(JournalError::InvalidPosition);
    }
    let ghost ts0 = views(tasks@);
    tasks.remove(position - 1);
    proof {
        assert(views(tasks@) =~= ts0.remove(position - 1));
    }
    let c2 = persist_tasks(&tasks);
    Ok((c2, tasks))
}

} // verus!
