//! Task statuses and their history.
use vstd::prelude::*;
use crate::error::Error;

verus! {

/// The state a task is in.
#[derive(Clone, Copy, Debug, PartialEq, Eq, Structural)]
pub enum TaskStatus {
    Todo,
    InProgress,
    Complete,
    Cancelled,
    Hidden,
}

/// The number under which a status is stored.
pub open spec fn status_code(s: TaskStatus) -> u8 {
    match s {
        TaskStatus::Todo => 0,
        TaskStatus::InProgress => 1,
        TaskStatus::Complete => 2,
        TaskStatus::Cancelled => 3,
        TaskStatus::Hidden => 4,
    }
}

/// The mark shown in front of a task with this status.
pub open spec fn status_mark(s: TaskStatus) -> char {
    match s {
        TaskStatus::Todo => ' ',
        TaskStatus::InProgress => '/',
        TaskStatus::Complete => 'x',
        TaskStatus::Cancelled => '-',
        TaskStatus::Hidden => '?',
    }
}

impl TaskStatus {
    /// The number under which the status is stored.
    pub fn code(self) -> (r: u8)
        ensures
            r == status_code(self),
    {
        match self {
            TaskStatus::Todo => 0,
            TaskStatus::InProgress => 1,
            TaskStatus::Complete => 2,
            TaskStatus::Cancelled => 3,
            TaskStatus::Hidden => 4,
        }
    }

    /// The status stored under `value`; any other number is a bug.
    pub fn try_from(value: u8) -> (r: Result<TaskStatus, Error>)
        ensures
            match r {
                Ok(s) => status_code(s) == value,
                Err(e) => value > 4 && e == Error::InvalidStatus(value),
            },
    {
        match value {
            0 => Ok(TaskStatus::Todo),
            1 => Ok(TaskStatus::InProgress),
            2 => Ok(TaskStatus::Complete),
            3 => Ok(TaskStatus::Cancelled),
            4 => Ok(TaskStatus::Hidden),
            _ => Err(Error::InvalidStatus(value)),
        }
    }

    /// The status as shown: its mark between brackets, as in `[x]`.
    pub fn to_string(self) -> (r: String)
        ensures
            r@ == seq!['[', status_mark(self), ']'],
    {
        let r = match self {
            TaskStatus::Todo => String::from_str("[ ]"),
            TaskStatus::InProgress => String::from_str("[/]"),
            TaskStatus::Complete => String::from_str("[x]"),
            TaskStatus::Cancelled => String::from_str("[-]"),
            TaskStatus::Hidden => String::from_str("[?]"),
        };
        proof {
            reveal_strlit("[ ]");
            reveal_strlit("[/]");
            reveal_strlit("[x]");
            reveal_strlit("[-]");
            reveal_strlit("[?]");
        }
        assert(r@ =~= seq!['[', status_mark(self), ']']);
        r
    }
}

impl Default for TaskStatus {
    fn default() -> (r: TaskStatus)
        ensures
            r == TaskStatus::Todo,
    {
        TaskStatus::Todo
    }
}

/// An append-only fact: task `task` entered `status` at time `at` (seconds).
#[derive(Clone, Copy, Debug, PartialEq, Eq, Structural)]
pub struct StatusRecord {
    pub task: u64,
    pub status: TaskStatus,
    pub at: i64,
}

/// The current record of task `x` in a log: the one with the latest time,
/// and of several with that time the one appended last.
pub open spec fn latest_status(log: Seq<StatusRecord>, x: u64) -> Option<StatusRecord>
    decreases log.len(),
{
    if log.len() == 0 {
        None
    } else {
        let before = latest_status(log.drop_last(), x);
        let e = log.last();
        if e.task == x && (before is None || before->0.at <= e.at) {
            Some(e)
        } else {
            before
        }
    }
}

/// Appending a record changes the current record of its own task only, and
/// gives that task one.
pub proof fn lemma_latest_after_push(log: Seq<StatusRecord>, e: StatusRecord, y: u64)
    ensures
        y != e.task ==> latest_status(log.push(e), y) == latest_status(log, y),
        latest_status(log.push(e), e.task) is Some,
{
    assert(log.push(e).drop_last() =~= log);
}

/// The current record of task `x` in `log`.
pub fn current_status(log: &Vec<StatusRecord>, x: u64) -> (r: Option<StatusRecord>)
    ensures
        r == latest_status(log@, x),
{
    let mut best: Option<StatusRecord> = None;
    let mut i: usize = 0;
    while i < log.len()
        invariant
            i <= log.len(),
            best == latest_status(log@.take(i as int), x),
        decreases log.len() - i,
    {
        let e = log[i];
        assert(log@.take(i + 1).drop_last() =~= log@.take(i as int));
        if e.task == x && (best.is_none() || best.unwrap().at <= e.at) {
            best = Some(e);
        }
        i = i + 1;
    }
    assert(log@.take(log.len() as int) =~= log@);
    best
}

/// The records of task `x` in a log, in the order appended.
pub open spec fn history(log: Seq<StatusRecord>, x: u64) -> Seq<StatusRecord>
    decreases log.len(),
{
    if log.len() == 0 {
        Seq::empty()
    } else {
        let before = history(log.drop_last(), x);
        if log.last().task == x {
            before.push(log.last())
        } else {
            before
        }
    }
}

/// A task with no record in a log has an empty history and no current
/// record there.
pub proof fn lemma_no_record(log: Seq<StatusRecord>, x: u64)
    requires
        forall|i: int| 0 <= i < log.len() ==> (#[trigger] log[i]).task != x,
    ensures
        history(log, x) == Seq::<StatusRecord>::empty(),
        latest_status(log, x) is None,
    decreases log.len(),
{
    if log.len() > 0 {
        assert(log[log.len() - 1].task != x);
        lemma_no_record(log.drop_last(), x);
    }
}

/// Appending a record adds it to its own task's history only; it becomes
/// the current record of its task where it is no older than the one before.
pub proof fn lemma_history_push(log: Seq<StatusRecord>, e: StatusRecord, y: u64)
    ensures
        history(log.push(e), y) == if e.task == y {
            history(log, y).push(e)
        } else {
            history(log, y)
        },
        e.task == y && (latest_status(log, y) is None || latest_status(log, y)->0.at <= e.at)
            ==> latest_status(log.push(e), y) == Some(e),
{
    assert(log.push(e).drop_last() =~= log);
}

} // verus!
