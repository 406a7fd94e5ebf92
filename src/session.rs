//! What each command of the home view does to the board.
use vstd::prelude::*;
use crate::board::{
    lemma_replay_concat, lemma_replay_no_links, lemma_statuses_concat, lemma_statuses_of_links,
    replay, resolved, statuses_in, Board, Change,
};
use crate::chain::{counter_rotated, head, prioritized, rotated, swapped, unlinked};
use crate::command::{CommandModel, HomeCommand, TaskIdentifier};
use crate::error::Error;
use crate::status::{StatusRecord, TaskStatus};

verus! {

/// What the caller does after a command.
#[derive(Clone, Copy, Debug, PartialEq, Eq, Structural)]
pub enum Outcome {
    /// Go on reading commands.
    Continue,
    /// Leave the home view.
    Exit,
    /// Show the details of the task with the given id.
    Open(u64),
}

/// The task that a command aims at: the one it names, or else the top of
/// the chain (none where the chain is empty).
pub open spec fn target(b: Board, t: Option<TaskIdentifier>) -> Result<Option<u64>, Error> {
    match t {
        None => Ok(head(b.chain())),
        Some(id) => match resolved(b.chain(), |y: u64| b.is_task(y), id) {
            Ok(x) => Ok(Some(x)),
            Err(e) => Err(e),
        },
    }
}

/// `after` holds what `before` held, but for the given chain and status log.
pub open spec fn settles(
    before: Board,
    after: Board,
    chain: Seq<u64>,
    log: Seq<StatusRecord>,
) -> bool {
    &&& after.wf()
    &&& after.same_tasks(&before)
    &&& after.chain() == chain
    &&& after.status_log() == log
}

/// The record of task `x` entering `status` at `now`.
pub open spec fn record(x: u64, status: TaskStatus, now: i64) -> StatusRecord {
    StatusRecord { task: x, status, at: now }
}

/// The task a command aims at: the one named, or else the top of the chain.
pub fn find_target(b: &Board, t: Option<TaskIdentifier>) -> (r: Result<Option<u64>, Error>)
    requires
        b.wf(),
    ensures
        r == target(*b, t),
{
    match t {
        None => Ok(b.task_at(0)),
        Some(id) => match b.resolve(id) {
            Ok(x) => Ok(Some(x)),
            Err(e) => Err(e),
        },
    }
}

/// Sets the status of the top task, where there is one.
fn set_top_status(b: &mut Board, status: TaskStatus, now: i64) -> (w: Vec<Change>)
    requires
        old(b).wf(),
    ensures
        settles(
            *old(b),
            *final(b),
            old(b).chain(),
            match head(old(b).chain()) {
                Some(x) => old(b).status_log().push(record(x, status, now)),
                None => old(b).status_log(),
            },
        ),
        final(b).links() == old(b).links(),
        replay(old(b).links(), w@) == final(b).links(),
        final(b).status_log() == old(b).status_log() + statuses_in(w@),
{
    proof {
        b.lemma_wf();
    }
    match b.task_at(0) {
        Some(x) => match b.update_status(x, status, now) {
            Ok(w) => {
                proof {
                    lemma_replay_no_links(old(b).links(), w@);
                    assert(w@.drop_last().len() == 0);
                    assert(statuses_in(w@.drop_last()) == Seq::<StatusRecord>::empty());
                    assert(old(b).status_log() + statuses_in(w@) =~= b.status_log());
                }
                w
            },
            Err(_) => {
                assert(old(b).status_log() + statuses_in(Seq::<Change>::empty()) =~= b.status_log());
                Vec::new()
            },
        },
        None => {
            assert(old(b).status_log() + statuses_in(Seq::<Change>::empty()) =~= b.status_log());
            Vec::new()
        },
    }
}

/// Carries out one command on the board at time `now`, and hands back what
/// the caller does next with the writes that storage must make, in order.
/// A command that fails changes nothing.
pub fn execute(b: &mut Board, cmd: &HomeCommand, now: i64) -> (r: Result<
    (Outcome, Vec<Change>),
    Error,
>)
    requires
        old(b).wf(),
    ensures
        final(b).wf(),
        r is Err ==> *final(b) == *old(b),
        match cmd@ {
            CommandModel::Push(title) => match r {
                Ok((o, w)) => {
                    let id = old(b).next_id() as u64;
                    &&& o == Outcome::Continue
                    &&& old(b).next_id() < usize::MAX
                    &&& final(b).chain() == seq![id] + old(b).chain()
                    &&& final(b).is_task(id)
                    &&& final(b).title(id) == title
                    &&& final(b).created(id) == now
                    &&& final(b).status_log() == old(b).status_log().push(
                        record(id, TaskStatus::Todo, now),
                    )
                    &&& final(b).status_of(id) == TaskStatus::Todo
                    &&& replay(old(b).links().push(None), w@) == final(b).links()
                },
                Err(e) => e == Error::IdsExhausted && old(b).next_id() == usize::MAX,
            },
            CommandModel::Edit(t) => match target(*old(b), t) {
                Ok(Some(x)) => r is Ok && r->Ok_0.0 == Outcome::Open(x) && *final(b) == *old(b),
                Ok(None) => r is Ok && r->Ok_0.0 == Outcome::Continue && *final(b) == *old(b),
                Err(e) => r == Err::<(Outcome, Vec<Change>), Error>(e),
            },
            CommandModel::Drop(t) => match target(*old(b), t) {
                Ok(Some(x)) => r is Ok && r->Ok_0.0 == Outcome::Continue && settles(
                    *old(b),
                    *final(b),
                    unlinked(old(b).chain(), x),
                    old(b).status_log(),
                ),
                Ok(None) => r is Ok && r->Ok_0.0 == Outcome::Continue && *final(b) == *old(b),
                Err(e) => r == Err::<(Outcome, Vec<Change>), Error>(e),
            },
            CommandModel::Complete(t) => match target(*old(b), t) {
                Ok(Some(x)) => r is Ok && r->Ok_0.0 == Outcome::Continue && settles(
                    *old(b),
                    *final(b),
                    unlinked(old(b).chain(), x),
                    old(b).status_log().push(record(x, TaskStatus::Complete, now)),
                ),
                Ok(None) => r is Ok && r->Ok_0.0 == Outcome::Continue && *final(b) == *old(b),
                Err(e) => r == Err::<(Outcome, Vec<Change>), Error>(e),
            },
            CommandModel::Start => r is Ok && r->Ok_0.0 == Outcome::Continue && settles(
                *old(b),
                *final(b),
                old(b).chain(),
                match head(old(b).chain()) {
                    Some(x) => old(b).status_log().push(record(x, TaskStatus::InProgress, now)),
                    None => old(b).status_log(),
                },
            ),
            CommandModel::Todo => r is Ok && r->Ok_0.0 == Outcome::Continue && settles(
                *old(b),
                *final(b),
                old(b).chain(),
                match head(old(b).chain()) {
                    Some(x) => old(b).status_log().push(record(x, TaskStatus::Todo, now)),
                    None => old(b).status_log(),
                },
            ),
            CommandModel::Swap => r is Ok && r->Ok_0.0 == Outcome::Continue && settles(
                *old(b),
                *final(b),
                swapped(old(b).chain()),
                old(b).status_log(),
            ),
            CommandModel::Rot => r is Ok && r->Ok_0.0 == Outcome::Continue && settles(
                *old(b),
                *final(b),
                rotated(old(b).chain()),
                old(b).status_log(),
            ),
            CommandModel::NRot => r is Ok && r->Ok_0.0 == Outcome::Continue && settles(
                *old(b),
                *final(b),
                counter_rotated(old(b).chain()),
                old(b).status_log(),
            ),
            CommandModel::Reprioritize(id) => match resolved(
                old(b).chain(),
                |y: u64| old(b).is_task(y),
                id,
            ) {
                Ok(x) => r is Ok && r->Ok_0.0 == Outcome::Continue && settles(
                    *old(b),
                    *final(b),
                    prioritized(old(b).chain(), x),
                    old(b).status_log(),
                ),
                Err(e) => r == Err::<(Outcome, Vec<Change>), Error>(e),
            },
            CommandModel::Quit => r is Ok && r->Ok_0.0 == Outcome::Exit && *final(b) == *old(b),
            CommandModel::Make(name) => {
                &&& r is Ok && r->Ok_0.0 == Outcome::Continue
                &&& final(b).chain() == old(b).chain()
                &&& final(b).status_log() == old(b).status_log()
                &&& final(b).tags() == if old(b).tags().contains(name) {
                    old(b).tags()
                } else {
                    old(b).tags().push(name)
                }
            },
        },
        match r {
            Ok((_, w)) => {
                &&& final(b).status_log() == old(b).status_log() + statuses_in(w@)
                &&& match cmd@ {
                    CommandModel::Push(_) => w@[0] == Change::Created(old(b).next_id() as u64),
                    _ => replay(old(b).links(), w@) == final(b).links(),
                }
            },
            Err(_) => true,
        },
{
    proof {
        b.lemma_wf();
        assert(b.status_log() + statuses_in(Seq::<Change>::empty()) =~= b.status_log());
    }
    match cmd {
        HomeCommand::Push(title) => {
            let ghost l0 = b.links();
            let ghost c0 = b.chain();
            let ghost log0 = b.status_log();
            match b.create_task(title.clone(), now) {
                Ok((id, mut w)) => {
                    assert(!c0.contains(id));
                    assert(unlinked(c0, id) == c0);
                    let ghost l1 = b.links();
                    let mut w2 = match b.prioritize(id) {
                        Ok(w2) => w2,
                        Err(_) => Vec::new(),
                    };
                    proof {
                        lemma_replay_no_links(l1, w@);
                        lemma_replay_concat(l1, w@, w2@);
                        lemma_statuses_concat(w@, w2@);
                        lemma_statuses_of_links(w2@);
                        assert(w@.drop_last().drop_last().len() == 0);
                        assert(statuses_in(w@.drop_last().drop_last()) == Seq::<StatusRecord>::empty());
                        assert(w@.drop_last().last() == Change::Created(id));
                        assert(statuses_in(w@.drop_last()) == Seq::<StatusRecord>::empty());
                        assert(statuses_in(w@) =~= seq![record(id, TaskStatus::Todo, now)]);
                        assert(statuses_in(w@) + statuses_in(w2@) =~= statuses_in(w@));
                    }
                    w.append(&mut w2);
                    Ok((Outcome::Continue, w))
                },
                Err(e) => Err(e),
            }
        },
        HomeCommand::Edit(t) => match find_target(b, *t) {
            Ok(Some(x)) => Ok((Outcome::Open(x), Vec::new())),
            Ok(None) => Ok((Outcome::Continue, Vec::new())),
            Err(e) => Err(e),
        },
        HomeCommand::Drop(t) => match find_target(b, *t) {
            Ok(Some(x)) => {
                let w = b.deprioritize(x);
                proof {
                    lemma_statuses_of_links(w@);
                    assert(b.status_log() + statuses_in(w@) =~= b.status_log());
                }
                Ok((Outcome::Continue, w))
            },
            Ok(None) => Ok((Outcome::Continue, Vec::new())),
            Err(e) => Err(e),
        },
        HomeCommand::Complete(t) => match find_target(b, *t) {
            Ok(Some(x)) => {
                let ghost l0 = b.links();
                let mut w = match b.update_status(x, TaskStatus::Complete, now) {
                    Ok(w) => w,
                    Err(_) => Vec::new(),
                };
                let mut w2 = b.deprioritize(x);
                proof {
                    lemma_replay_no_links(l0, w@);
                    lemma_replay_concat(l0, w@, w2@);
                    lemma_statuses_concat(w@, w2@);
                    lemma_statuses_of_links(w2@);
                    assert(w@.drop_last().len() == 0);
                    assert(statuses_in(w@.drop_last()) == Seq::<StatusRecord>::empty());
                    assert(statuses_in(w@) =~= seq![record(x, TaskStatus::Complete, now)]);
                    assert(statuses_in(w@) + statuses_in(w2@) =~= statuses_in(w@));
                }
                w.append(&mut w2);
                Ok((Outcome::Continue, w))
            },
            Ok(None) => Ok((Outcome::Continue, Vec::new())),
            Err(e) => Err(e),
        },
        HomeCommand::Start => Ok((Outcome::Continue, set_top_status(b, TaskStatus::InProgress, now))),
        HomeCommand::Todo => Ok((Outcome::Continue, set_top_status(b, TaskStatus::Todo, now))),
        HomeCommand::Swap => {
            let w = b.swap_top_two();
            proof {
                lemma_statuses_of_links(w@);
                assert(b.status_log() + statuses_in(w@) =~= b.status_log());
            }
            Ok((Outcome::Continue, w))
        },
        HomeCommand::Rot => {
            let w = b.rot();
            proof {
                lemma_statuses_of_links(w@);
                assert(b.status_log() + statuses_in(w@) =~= b.status_log());
            }
            Ok((Outcome::Continue, w))
        },
        HomeCommand::NRot => {
            let w = b.nrot();
            proof {
                lemma_statuses_of_links(w@);
                assert(b.status_log() + statuses_in(w@) =~= b.status_log());
            }
            Ok((Outcome::Continue, w))
        },
        HomeCommand::Reprioritize(id) => match b.resolve(*id) {
            Ok(x) => match b.prioritize(x) {
                Ok(w) => {
                    proof {
                        lemma_statuses_of_links(w@);
                        assert(b.status_log() + statuses_in(w@) =~= b.status_log());
                    }
                    Ok((Outcome::Continue, w))
                },
                Err(e) => Err(e),
            },
            Err(e) => Err(e),
        },
        HomeCommand::Quit => Ok((Outcome::Exit, Vec::new())),
        HomeCommand::Make(name) => {
            let mut w: Vec<Change> = Vec::new();
            match b.add_tag(name.clone()) {
                Some(i) => w.push(Change::Tag(i)),
                None => {},
            }
            proof {
                lemma_replay_no_links(b.links(), w@);
                if w@.len() > 0 {
                    assert(w@.drop_last().len() == 0);
                    assert(statuses_in(w@.drop_last()) == Seq::<StatusRecord>::empty());
                }
                assert(b.status_log() + statuses_in(w@) =~= b.status_log());
            }
            Ok((Outcome::Continue, w))
        },
    }
}

} // verus!
