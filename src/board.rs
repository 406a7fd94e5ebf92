//! The ordering engine: tasks in an arena addressed by id, ordered by a chain
//! of `next` pointers that starts at a root which is not itself a task.
use vstd::prelude::*;
use vstd::set_lib::{lemma_int_range, lemma_len_subset, set_int_range};
use crate::chain::{
    after, cleared_links, front_links, head, lemma_index_of_unique, lemma_pointer_at,
    pointer_at, lemma_no_pointer_outside,
    lemma_member_has_source, lemma_prioritize_links, lemma_prioritized_elements,
    lemma_prioritized_member, lemma_realised_chain, lemma_unlink_links, lemma_unlinked_elements,
    prioritized, realises, rotated, counter_rotated, rotation_depth, swapped, unlinked,
};
use crate::command::TaskIdentifier;
use crate::content::{
    content_of, current_content, latest_content, text_of, uri_accepts, ContentRecord, TaskContent,
};
use crate::error::Error;
use crate::status::{
    current_status, history, latest_status, lemma_history_push, lemma_latest_after_push,
    lemma_no_record, status_code, StatusRecord, TaskStatus,
};

verus! {

/// The id of the root, which anchors the chain.
pub const ROOT: u64 = 0;

/// A write that storage must make to mirror an operation of the engine.
#[derive(Clone, Copy, Debug, PartialEq, Eq, Structural)]
pub enum Change {
    /// A task was created under this id; its title and creation time can be
    /// read from the board.
    Created(u64),
    /// A status record was appended.
    Status(StatusRecord),
    /// The `next` pointer of this id (the root included) was set.
    Link(u64, Option<u64>),
    /// A content record was appended at this place of the content log.
    Content(usize),
    /// A tag was made at this place of the tag list.
    Tag(usize),
}

/// The `next` pointers after a sequence of changes.
pub open spec fn replay(links: Seq<Option<u64>>, changes: Seq<Change>) -> Seq<Option<u64>>
    decreases changes.len(),
{
    if changes.len() == 0 {
        links
    } else {
        let l = replay(links, changes.drop_last());
        match changes.last() {
            Change::Link(i, v) => if i < l.len() {
                l.update(i as int, v)
            } else {
                l
            },
            _ => l,
        }
    }
}

/// The writes set pointers only.
pub open spec fn only_links(w: Seq<Change>) -> bool {
    forall|i: int| 0 <= i < w.len() ==> (#[trigger] w[i]) is Link
}

/// The status records that a run of writes appends, in order.
pub open spec fn statuses_in(w: Seq<Change>) -> Seq<StatusRecord>
    decreases w.len(),
{
    if w.len() == 0 {
        Seq::empty()
    } else {
        match w.last() {
            Change::Status(r) => statuses_in(w.drop_last()).push(r),
            _ => statuses_in(w.drop_last()),
        }
    }
}

/// A task as read from the board.
pub struct Task {
    pub id: u64,
    pub title: String,
    pub status: TaskStatus,
    /// Seconds since the Unix epoch.
    pub created: i64,
    pub content: Option<TaskContent>,
}

impl Task {
    /// A task without content.
    pub fn new(id: u64, status: TaskStatus, title: String, created: i64) -> (t: Task)
        ensures
            t.id == id,
            t.status == status,
            t.title@ == title@,
            t.created == created,
            t.content is None,
    {
        Task { id, status, title, created, content: None }
    }

    /// Attaches `content`, handing back what was attached before.
    pub fn set_content(&mut self, content: TaskContent) -> (r: Option<TaskContent>)
        ensures
            r == old(self).content,
            final(self).content == Some(content),
            final(self).id == old(self).id,
            final(self).title == old(self).title,
            final(self).status == old(self).status,
            final(self).created == old(self).created,
    {
        let mut c = Some(content);
        std::mem::swap(&mut self.content, &mut c);
        c
    }
}

/// A task row as storage holds it.
pub struct StoredTask {
    pub id: u64,
    pub title: String,
    pub created: i64,
    pub next: Option<u64>,
}

/// A status record as storage holds it.
#[derive(Clone, Copy, Debug, PartialEq, Eq, Structural)]
pub struct StoredStatus {
    pub task: u64,
    pub code: u8,
    pub at: i64,
}

struct Row {
    title: String,
    created: i64,
}

/// The tasks, their status history and their order.
pub struct Board {
    /// Index = task id; slot 0 belongs to the root and holds no task.
    rows: Vec<Option<Row>>,
    /// Index = task id; the `next` pointer of each id.
    links: Vec<Option<u64>>,
    /// Every status record, in the order appended.
    statuses: Vec<StatusRecord>,
    /// Every content record, in the order appended.
    contents: Vec<ContentRecord>,
    /// The names of the tags, each once.
    tags: Vec<String>,
    /// The ids that the root's chain reaches, in order.
    chain: Ghost<Seq<u64>>,
}

impl Board {
    /// The tasks in priority order, highest first.
    pub closed spec fn chain(&self) -> Seq<u64> {
        self.chain@
    }

    /// The `next` pointer of each id, the root's at index 0.
    pub closed spec fn links(&self) -> Seq<Option<u64>> {
        self.links@
    }

    /// How many ids have been handed out, the root's included: the next task
    /// gets this id.
    pub closed spec fn next_id(&self) -> nat {
        self.rows@.len()
    }

    /// Whether `x` is the id of a task.
    pub closed spec fn is_task(&self, x: u64) -> bool {
        0 < x < self.rows@.len() && self.rows@[x as int] is Some
    }

    /// The title of task `x`.
    pub closed spec fn title(&self, x: u64) -> Seq<char> {
        if self.is_task(x) {
            self.rows@[x as int]->0.title@
        } else {
            Seq::empty()
        }
    }

    /// When task `x` was created, in seconds.
    pub closed spec fn created(&self, x: u64) -> i64 {
        if self.is_task(x) {
            self.rows@[x as int]->0.created
        } else {
            0
        }
    }

    /// Every status record, in the order appended.
    pub closed spec fn status_log(&self) -> Seq<StatusRecord> {
        self.statuses@
    }

    /// Every content record, in the order appended.
    pub closed spec fn content_log(&self) -> Seq<ContentRecord> {
        self.contents@
    }

    /// The names of the tags, in the order made.
    pub closed spec fn tags(&self) -> Seq<Seq<char>> {
        self.tags@.map_values(|s: String| s@)
    }

    /// The board is consistent: the pointers realise the chain, the chain
    /// holds tasks only, every task has a status, and every status record
    /// names a task.
    pub closed spec fn wf(&self) -> bool {
        &&& self.rows@.len() == self.links@.len()
        &&& self.rows@.len() <= usize::MAX
        &&& self.rows@[0] is None
        &&& realises(self.links@, self.chain@)
        &&& forall|j: int| 0 <= j < self.chain@.len() ==> self.is_task(#[trigger] self.chain@[j])
        &&& forall|x: u64| #[trigger] self.is_task(x) ==> latest_status(self.statuses@, x) is Some
        &&& forall|i: int| 0 <= i < self.statuses@.len() ==> self.is_task(#[trigger] self.statuses@[i].task)
    }

    /// The current status of task `x`.
    pub open spec fn status_of(&self, x: u64) -> TaskStatus {
        latest_status(self.status_log(), x)->0.status
    }

    /// Both boards hold the same tasks, with the same titles, creation times
    /// and content, and hand out the same next id.
    pub open spec fn same_tasks(&self, other: &Board) -> bool {
        &&& self.next_id() == other.next_id()
        &&& self.content_log() == other.content_log()
        &&& self.tags() == other.tags()
        &&& forall|y: u64| #[trigger] self.is_task(y) == other.is_task(y)
        &&& forall|y: u64| #[trigger] self.title(y) == other.title(y)
        &&& forall|y: u64| #[trigger] self.created(y) == other.created(y)
    }

    /// An empty board: the root alone.
    pub fn new() -> (b: Board)
        ensures
            b.wf(),
            b.chain() == Seq::<u64>::empty(),
            b.next_id() == 1,
            b.status_log() == Seq::<StatusRecord>::empty(),
            b.content_log().len() == 0,
            b.tags().len() == 0,
            forall|x: u64| !b.is_task(x),
    {
        let b = Board {
            rows: vec![None],
            links: vec![None],
            statuses: Vec::new(),
            contents: Vec::new(),
            tags: Vec::new(),
            chain: Ghost(Seq::empty()),
        };
        assert(b.links@[0] == head(b.chain@));
        assert(realises(b.links@, b.chain@)) by {
            reveal(realises);
        }
        b
    }

    /// Whether `x` is the id of a task.
    pub fn has_task(&self, x: u64) -> (r: bool)
        requires
            self.wf(),
        ensures
            r == self.is_task(x),
    {
        x > 0 && x < self.rows.len() as u64 && self.rows[x as usize].is_some()
    }

    /// Sets the `next` pointer of id `i` and records the write.
    fn set_link(&mut self, i: usize, v: Option<u64>, writes: &mut Vec<Change>)
        requires
            i < old(self).links@.len(),
        ensures
            final(self).links@ == old(self).links@.update(i as int, v),
            final(writes)@ == old(writes)@.push(Change::Link(i as u64, v)),
            final(self).rows == old(self).rows,
            final(self).statuses == old(self).statuses,
            final(self).contents == old(self).contents,
            final(self).tags == old(self).tags,
            final(self).chain == old(self).chain,
    {
        self.links.set(i, v);
        writes.push(Change::Link(i as u64, v));
    }

    /// The id whose `next` pointer is `x`, if any.
    fn find_pred(&self, x: u64) -> (r: Option<usize>)
        ensures
            match r {
                Some(p) => p < self.links@.len() && self.links@[p as int] == Some(x),
                None => forall|i: int| 0 <= i < self.links@.len() ==> self.links@[i] != Some(x),
            },
    {
        let mut i: usize = 0;
        while i < self.links.len()
            invariant
                i <= self.links@.len(),
                forall|k: int| 0 <= k < i ==> self.links@[k] != Some(x),
            decreases self.links@.len() - i,
        {
            if self.links[i] == Some(x) {
                return Some(i);
            }
            i = i + 1;
        }
        None
    }

    /// Creates a task with the given title, created at `now`, whose first
    /// status record is Todo at `now`. It is not put in the chain.
    pub fn create_task(&mut self, title: String, now: i64) -> (r: Result<(u64, Vec<Change>), Error>)
        requires
            old(self).wf(),
        ensures
            final(self).wf(),
            final(self).chain() == old(self).chain(),
            final(self).content_log() == old(self).content_log(),
            final(self).tags() == old(self).tags(),
            match r {
                Ok((id, writes)) => {
                    &&& id == old(self).next_id()
                    &&& id != 0
                    &&& !old(self).is_task(id)
                    &&& old(self).next_id() < usize::MAX
                    &&& final(self).next_id() == id + 1
                    &&& final(self).is_task(id)
                    &&& history(final(self).status_log(), id) == seq![
                        StatusRecord { task: id, status: TaskStatus::Todo, at: now },
                    ]
                    &&& latest_status(final(self).status_log(), id) == Some(
                        StatusRecord { task: id, status: TaskStatus::Todo, at: now },
                    )
                    &&& final(self).status_of(id) == TaskStatus::Todo
                    &&& final(self).links()[id as int] is None
                    &&& forall|i: int|
                        0 <= i < final(self).links().len() ==> final(self).links()[i] != Some(id)
                    &&& final(self).title(id) == title@
                    &&& final(self).created(id) == now
                    &&& final(self).status_log() == old(self).status_log().push(
                        StatusRecord { task: id, status: TaskStatus::Todo, at: now },
                    )
                    &&& forall|y: u64| y != id ==> (final(self).is_task(y) == old(self).is_task(y)
                        && final(self).title(y) == old(self).title(y)
                        && final(self).created(y) == old(self).created(y))
                    &&& final(self).links() == old(self).links().push(None)
                    &&& writes@ == seq![
                        Change::Created(id),
                        Change::Status(StatusRecord { task: id, status: TaskStatus::Todo, at: now }),
                    ]
                },
                Err(e) => {
                    &&& old(self).next_id() == usize::MAX
                    &&& e == Error::IdsExhausted
                    &&& *final(self) == *old(self)
                },
            },
    {
        if self.rows.len() == usize::MAX {
            return Err(Error::IdsExhausted);
        }
        let id = self.rows.len() as u64;
        let rec = StatusRecord { task: id, status: TaskStatus::Todo, at: now };
        let ghost old_links = self.links@;
        let ghost old_log = self.statuses@;
        let ghost old_self = *self;
        proof {
            lemma_realised_chain(old_links, self.chain@);
            assert forall|i: int| 0 <= i < old_log.len() implies (#[trigger] old_log[i]).task != id by {
                assert(old_self.is_task(old_log[i].task));
            }
            lemma_no_record(old_log, id);
            lemma_history_push(old_log, rec, id);
            assert forall|i: int| 0 <= i < old_links.len() implies old_links[i] != Some(id) by {
                if old_links[i] == Some(id) {
                    assert(!self.chain@.contains(id));
                    lemma_no_pointer_outside(old_links, self.chain@, i, id);
                }
            }
        }
        self.rows.push(Some(Row { title, created: now }));
        self.links.push(None);
        self.statuses.push(rec);
        proof {
            reveal(realises);
            let c = self.chain@;
            assert forall|j: int| 0 <= j < c.len() implies self.links@[#[trigger] c[j] as int]
                == after(c, j) && 0 < c[j] < self.links@.len() by {
                assert(old_links[c[j] as int] == after(c, j));
            }
            assert forall|i: int|
                0 < i < self.links@.len() && !c.contains(i as u64) implies (
            #[trigger] self.links@[i]) is None by {
                if i < old_links.len() {
                    assert(old_links[i] is None);
                }
            }
            assert forall|x: u64| #[trigger] self.is_task(x) implies latest_status(
                self.statuses@,
                x,
            ) is Some by {
                lemma_latest_after_push(old_log, rec, x);
                if x != id {
                    assert(old_self.is_task(x));
                }
            }
            assert forall|i: int| 0 <= i < self.statuses@.len() implies self.is_task(
                #[trigger] self.statuses@[i].task,
            ) by {
                if i < old_log.len() {
                    assert(old_self.is_task(old_log[i].task));
                }
            }
            assert forall|j: int| 0 <= j < c.len() implies self.is_task(#[trigger] c[j]) by {
                assert(old_self.is_task(c[j]));
            }
        }
        let writes = vec![Change::Created(id), Change::Status(rec)];
        assert(self.is_task(id));
        assert(self.links@ =~= old_links.push(None));
        assert(forall|y: u64| y != id ==> (self.is_task(y) == old_self.is_task(y)
            && self.title(y) == old_self.title(y) && self.created(y) == old_self.created(y)));
        Ok((id, writes))
    }

    /// Moves task `x` to the front of the chain: the task that pointed at it
    /// takes over its pointer, it points where the root pointed, and the root
    /// points at it.
    pub fn prioritize(&mut self, x: u64) -> (r: Result<Vec<Change>, Error>)
        requires
            old(self).wf(),
        ensures
            final(self).wf(),
            final(self).same_tasks(old(self)),
            final(self).status_log() == old(self).status_log(),
            match r {
                Ok(writes) => {
                    &&& old(self).is_task(x)
                    &&& final(self).chain() == prioritized(old(self).chain(), x)
                    &&& final(self).links() == front_links(old(self).links(), x)
                    &&& replay(old(self).links(), writes@) == final(self).links()
                    &&& only_links(writes@)
                },
                Err(e) => {
                    &&& !old(self).is_task(x)
                    &&& e == Error::UnknownTask(x)
                    &&& *final(self) == *old(self)
                },
            },
    {
        if !self.has_task(x) {
            return Err(Error::UnknownTask(x));
        }
        let mut writes: Vec<Change> = Vec::new();
        let ghost links0 = self.links@;
        let xi = x as usize;
        let pred = self.find_pred(x);
        match pred {
            Some(p) => {
                let nx = self.links[xi];
                assert(nx == links0[x as int]);
                self.set_link(p, nx, &mut writes);
                assert(self.links@ == links0.update(p as int, links0[x as int]));
            },
            None => {},
        }
        assert(replay(links0, writes@) == self.links@) by {
            if writes@.len() > 0 {
                assert(writes@.drop_last() =~= Seq::<Change>::empty());
                assert(replay(links0, writes@.drop_last()) == links0);
            }
        }
        let ghost first = self.links@;
        assert(first == match pred {
            Some(p) => links0.update(p as int, links0[x as int]),
            None => links0,
        });
        let h = self.links[0];
        let ghost w1 = writes@;
        self.set_link(xi, h, &mut writes);
        assert(writes@.drop_last() =~= w1);
        assert(replay(links0, writes@) == self.links@);
        let ghost w2 = writes@;
        self.set_link(0, Some(x), &mut writes);
        assert(writes@.drop_last() =~= w2);
        assert(replay(links0, writes@) == self.links@);
        proof {
            let ghost pi: Option<int> = match pred {
                Some(p) => Some(p as int),
                None => None,
            };
            lemma_prioritize_links(links0, self.chain@, x, pi);
            assert(self.links@ == first.update(x as int, first[0]).update(0, Some(x)));
            lemma_prioritized_elements(self.chain@, x);
            match pred {
                Some(p) => lemma_pointer_at(links0, self.chain@, x, p as int),
                None => assert(pointer_at(links0, x) is None),
            }
            assert(self.links@ == front_links(links0, x));
        }
        self.chain = Ghost(prioritized(self.chain@, x));
        assert(forall|y: u64| self.is_task(y) == old(self).is_task(y));
        assert forall|j: int| 0 <= j < self.chain@.len() implies self.is_task(
            #[trigger] self.chain@[j],
        ) by {
            let old_c = old(self).chain@;
            if self.chain@[j] != x {
                let k = choose|k: int| 0 <= k < old_c.len() && old_c[k] == self.chain@[j];
                assert(old(self).is_task(old_c[k]));
            }
        }
        Ok(writes)
    }

    /// What a consistent board guarantees: its pointers realise its chain (so
    /// no two ids point at the same id, and the walk from the root meets each
    /// task at most once), the tasks have ids in `1..next_id()`, the chain
    /// holds tasks only and is shorter than `next_id()`, and every status
    /// record names a task.
    pub proof fn lemma_wf(&self)
        requires
            self.wf(),
        ensures
            realises(self.links(), self.chain()),
            self.chain().no_duplicates(),
            self.links().len() == self.next_id(),
            1 <= self.next_id() <= usize::MAX,
            forall|x: u64| #[trigger] self.is_task(x) ==> 0 < x < self.next_id(),
            forall|j: int| 0 <= j < self.chain().len() ==> self.is_task(#[trigger] self.chain()[j]),
            forall|j: int| 0 <= j < self.chain().len() ==> #[trigger] self.chain()[j] < self.next_id(),
            self.chain().len() < self.next_id(),
            forall|i: int|
                0 <= i < self.status_log().len() ==> self.is_task(#[trigger] self.status_log()[i].task),
    {
        lemma_realised_chain(self.links@, self.chain@);
        lemma_distinct_below(self.chain@, self.rows@.len());
    }

    /// Takes task `x` out of the chain: the task that pointed at it takes over
    /// its pointer, and its own pointer is cleared. Where nothing points at
    /// `x` (it is not in the chain, or is the root) nothing changes. The task
    /// and its history stay.
    pub fn deprioritize(&mut self, x: u64) -> (writes: Vec<Change>)
        requires
            old(self).wf(),
        ensures
            final(self).wf(),
            final(self).same_tasks(old(self)),
            final(self).status_log() == old(self).status_log(),
            final(self).chain() == unlinked(old(self).chain(), x),
            final(self).links() == cleared_links(old(self).links(), x),
            pointer_at(old(self).links(), x) is None ==> *final(self) == *old(self),
            replay(old(self).links(), writes@) == final(self).links(),
            only_links(writes@),
    {
        let mut writes: Vec<Change> = Vec::new();
        let ghost links0 = self.links@;
        let ghost c = self.chain@;
        proof {
            lemma_realised_chain(links0, c);
        }
        match self.find_pred(x) {
            None => {
                proof {
                    assert(pointer_at(links0, x) is None);
                    if c.contains(x) {
                        let j = c.index_of(x);
                        lemma_member_has_source(links0, c, j);
                        assert(false);
                    }
                }
                assert(replay(links0, writes@) =~= links0);
                writes
            },
            Some(p) => {
                proof {
                    if !c.contains(x) {
                        lemma_no_pointer_outside(links0, c, p as int, x);
                        assert(false);
                    }
                }
                let ghost j = c.index_of(x);
                proof {
                    lemma_index_of_unique(c, j);
                }
                let xi = x as usize;
                let nx = self.links[xi];
                self.set_link(p, nx, &mut writes);
                assert(writes@.drop_last() =~= Seq::<Change>::empty());
                assert(replay(links0, writes@.drop_last()) == links0);
                assert(replay(links0, writes@) == self.links@);
                let ghost w1 = writes@;
                self.set_link(xi, None, &mut writes);
                assert(writes@.drop_last() =~= w1);
                assert(replay(links0, writes@) == self.links@);
                proof {
                    lemma_unlink_links(links0, c, j, p as int);
                    lemma_unlinked_elements(c, x);
                    lemma_pointer_at(links0, c, x, p as int);
                }
                self.chain = Ghost(unlinked(c, x));
                assert(forall|y: u64| self.is_task(y) == old(self).is_task(y));
                assert forall|k: int| 0 <= k < self.chain@.len() implies self.is_task(
                    #[trigger] self.chain@[k],
                ) by {
                    let i = choose|i: int| 0 <= i < c.len() && c[i] == self.chain@[k];
                    assert(old(self).is_task(c[i]));
                }
                writes
            },
        }
    }

    /// Appends a status record for task `x`: it enters `status` at `now`.
    /// Earlier records stay.
    pub fn update_status(&mut self, x: u64, status: TaskStatus, now: i64) -> (r: Result<
        Vec<Change>,
        Error,
    >)
        requires
            old(self).wf(),
        ensures
            final(self).wf(),
            final(self).same_tasks(old(self)),
            final(self).chain() == old(self).chain(),
            final(self).links() == old(self).links(),
            match r {
                Ok(writes) => {
                    &&& old(self).is_task(x)
                    &&& final(self).status_log() == old(self).status_log().push(
                        StatusRecord { task: x, status, at: now },
                    )
                    &&& history(final(self).status_log(), x) == history(old(self).status_log(), x).push(
                        StatusRecord { task: x, status, at: now },
                    )
                    &&& forall|y: u64|
                        y != x ==> #[trigger] history(final(self).status_log(), y) == history(
                            old(self).status_log(),
                            y,
                        )
                    &&& latest_status(old(self).status_log(), x) is Some
                    &&& (latest_status(old(self).status_log(), x)->0.at <= now ==> latest_status(
                        final(self).status_log(),
                        x,
                    ) == Some(StatusRecord { task: x, status, at: now }))
                    &&& writes@ == seq![Change::Status(StatusRecord { task: x, status, at: now })]
                },
                Err(e) => {
                    &&& !old(self).is_task(x)
                    &&& e == Error::UnknownTask(x)
                    &&& *final(self) == *old(self)
                },
            },
    {
        if !self.has_task(x) {
            return Err(Error::UnknownTask(x));
        }
        let rec = StatusRecord { task: x, status, at: now };
        let ghost log0 = self.statuses@;
        self.statuses.push(rec);
        proof {
            lemma_history_push(log0, rec, x);
            assert forall|y: u64| y != x implies #[trigger] history(self.statuses@, y) == history(log0, y) by {
                lemma_history_push(log0, rec, y);
            }
        }
        assert forall|i: int| 0 <= i < self.statuses@.len() implies self.is_task(
            #[trigger] self.statuses@[i].task,
        ) by {
            if i < log0.len() {
                assert(old(self).is_task(log0[i].task));
            }
        }
        assert forall|y: u64| #[trigger] self.is_task(y) implies latest_status(
            self.statuses@,
            y,
        ) is Some by {
            lemma_latest_after_push(log0, rec, y);
            assert(old(self).is_task(y));
        }
        assert forall|j: int| 0 <= j < self.chain@.len() implies self.is_task(
            #[trigger] self.chain@[j],
        ) by {
            assert(old(self).is_task(self.chain@[j]));
        }
        Ok(vec![Change::Status(rec)])
    }

    /// The current status record of task `x`: the latest by time.
    pub fn status_record(&self, x: u64) -> (r: Option<StatusRecord>)
        ensures
            r == latest_status(self.status_log(), x),
    {
        current_status(&self.statuses, x)
    }

    /// The title and creation time of task `x`.
    fn row_of(&self, x: u64) -> (r: (String, i64))
        requires
            self.wf(),
            self.is_task(x),
        ensures
            r.0@ == self.title(x),
            r.1 == self.created(x),
    {
        let row = self.rows[x as usize].as_ref().unwrap();
        (row.title.clone(), row.created)
    }

    /// The first `n` tasks of the chain, in order, each with its current
    /// status; all of them where the chain is shorter. The walk takes at most
    /// `n` steps.
    pub fn get_top_n_tasks(&self, n: u16) -> (r: Vec<Task>)
        requires
            self.wf(),
        ensures
            r@.len() == if n as int <= self.chain().len() {
                n as int
            } else {
                self.chain().len() as int
            },
            forall|i: int|
                0 <= i < r@.len() ==> {
                    let x = self.chain()[i];
                    &&& (#[trigger] r@[i]).id == x
                    &&& r@[i].title@ == self.title(x)
                    &&& r@[i].status == self.status_of(x)
                    &&& r@[i].created == self.created(x)
                    &&& r@[i].content is None
                },
    {
        let ghost c = self.chain@;
        proof {
            lemma_realised_chain(self.links@, c);
        }
        let limit = n as usize;
        let mut out: Vec<Task> = Vec::new();
        let mut cur = self.links[0];
        let mut k: usize = 0;
        while k < limit && cur.is_some()
            invariant
                self.wf(),
                c == self.chain@,
                forall|j: int| 0 <= j < c.len() ==> self.links@[#[trigger] c[j] as int] == after(c, j),
                forall|j: int| 0 <= j < c.len() ==> 0 < #[trigger] c[j] < self.links@.len(),
                k <= limit,
                k <= c.len(),
                cur == if k < c.len() {
                    Some(c[k as int])
                } else {
                    None::<u64>
                },
                out@.len() == k,
                forall|i: int|
                    0 <= i < k ==> {
                        let x = c[i];
                        &&& (#[trigger] out@[i]).id == x
                        &&& out@[i].title@ == self.title(x)
                        &&& out@[i].status == self.status_of(x)
                        &&& out@[i].created == self.created(x)
                        &&& out@[i].content is None
                    },
            decreases limit - k,
        {
            let x = cur.unwrap();
            assert(self.is_task(c[k as int]));
            let (title, created) = self.row_of(x);
            let status = current_status(&self.statuses, x).unwrap().status;
            out.push(Task::new(x, status, title, created));
            cur = self.links[x as usize];
            k = k + 1;
        }
        out
    }

    /// The task at offset `k` from the top of the chain, if the chain is that
    /// long.
    pub fn task_at(&self, k: u8) -> (r: Option<u64>)
        requires
            self.wf(),
        ensures
            r == if (k as int) < self.chain().len() {
                Some(self.chain()[k as int])
            } else {
                None::<u64>
            },
    {
        let ghost c = self.chain@;
        proof {
            lemma_realised_chain(self.links@, c);
        }
        let mut cur = self.links[0];
        let mut i: u8 = 0;
        while i < k && cur.is_some()
            invariant
                self.wf(),
                c == self.chain@,
                forall|j: int| 0 <= j < c.len() ==> self.links@[#[trigger] c[j] as int] == after(c, j),
                forall|j: int| 0 <= j < c.len() ==> 0 < #[trigger] c[j] < self.links@.len(),
                i <= k,
                i <= c.len(),
                cur == if (i as int) < c.len() {
                    Some(c[i as int])
                } else {
                    None::<u64>
                },
            decreases k - i,
        {
            let x = cur.unwrap();
            cur = self.links[x as usize];
            i = i + 1;
        }
        cur
    }

    /// Rebuilds a board from what storage holds: the task rows in ascending
    /// order of id, the root's `next` pointer, and the status records. The
    /// chain is found by following the pointers from the root, for at most as
    /// many steps as there are ids.
#[verifier::spinoff_prover]
        pub fn restore(tasks: &Vec<StoredTask>, root_next: Option<u64>, statuses: &Vec<StoredStatus>) -> (r:
        Result<Board, Error>)
        ensures
            match r {
                Ok(b) => {
                    &&& b.wf()
                    &&& forall|i: int|
                        0 <= i < tasks@.len() ==> {
                            let x = #[trigger] tasks@[i].id;
                            &&& b.is_task(x)
                            &&& b.title(x) == tasks@[i].title@
                            &&& b.created(x) == tasks@[i].created
                        }
                    &&& forall|x: u64|
                        #[trigger] b.is_task(x) ==> exists|i: int|
                            0 <= i < tasks@.len() && tasks@[i].id == x
                    &&& loaded_statuses(b.status_log(), statuses@)
                    &&& head(b.chain()) == root_next
                    &&& forall|j: int|
                        0 <= j < b.chain().len() ==> exists|i: int|
                            0 <= i < tasks@.len() && tasks@[i].id == #[trigger] b.chain()[j]
                                && tasks@[i].next == after(b.chain(), j)
                    &&& b.content_log().len() == 0
                    &&& b.tags().len() == 0
                },
                Err(e) => {
                    &&& !consistent_store(tasks@, root_next, statuses@)
                    &&& match e {
                        Error::OutOfOrder(_) | Error::InvalidStatus(_) | Error::UnknownTask(_)
                        | Error::NoStatus(_) | Error::CorruptChain | Error::IdsExhausted => true,
                        _ => false,
                    }
                },
            },
    {
        let (rows, raw, at) = match load_rows(tasks) {
            Ok(v) => v,
            Err(e) => return Err(e),
        };
        let recs = match load_statuses(statuses, &rows) {
            Ok(v) => v,
            Err(e) => {
                proof {
                    if consistent_store(tasks@, root_next, statuses@) {
                        let s = choose|s: int|
                            0 <= s < statuses@.len() && (#[trigger] statuses@[s].code > 4 || {
                                let x = statuses@[s].task;
                                x == 0 || x >= rows@.len() || rows@[x as int] is None
                            }) && (e is InvalidStatus || e is UnknownTask);
                        assert(statuses@[s].code <= 4);
                        let i = choose|i: int| 0 <= i < tasks@.len() && tasks@[i].id == statuses@[s].task;
                        assert(rows@[tasks@[i].id as int] is Some);
                    }
                }
                return Err(e);
            },
        };
        let n = rows.len();
        let mut links: Vec<Option<u64>> = Vec::new();
        let mut j: usize = 0;
        while j < n
            invariant
                j <= n,
                links@.len() == j,
                forall|k: int| 0 <= k < j ==> links@[k] is None,
            decreases n - j,
        {
            links.push(None);
            j = j + 1;
        }
        let mut b = Board {
            rows,
            links,
            statuses: recs,
            contents: Vec::new(),
            tags: Vec::new(),
            chain: Ghost(Seq::empty()),
        };
        match b.check_statuses() {
            Some(x) => {
                proof {
                    if consistent_store(tasks@, root_next, statuses@) {
                        let i = at@[x as int] as int;
                        assert(tasks@[i].id == x);
                        let s = choose|s: int| 0 <= s < statuses@.len() && statuses@[s].task == #[trigger] tasks@[i].id;
                        assert(b.statuses@[s].task == x);
                        lemma_latest_some(b.statuses@, s, x);
                    }
                }
                return Err(Error::NoStatus(x));
            },
            None => {},
        }
        proof {
            reveal(realises);
            assert(b.links@[0] == head(b.chain@));
            assert forall|i: int| 0 <= i < b.statuses@.len() implies b.is_task(
                #[trigger] b.statuses@[i].task,
            ) by {
                assert(0 < b.statuses@[i].task < b.rows@.len());
            }
        }
        assert(b.wf());
        let order = match b.walk(&raw, root_next) {
            Ok(o) => o,
            Err(e) => {
                proof {
                    if consistent_store(tasks@, root_next, statuses@) {
                        let p = choose|p: Seq<u64>| stored_chain(tasks@, root_next, p);
                        assert forall|k: int| 0 <= k < p.len() implies b.is_task(#[trigger] p[k])
                            && raw@[p[k] as int] == after(p, k) by {
                            let i = choose|i: int|
                                0 <= i < tasks@.len() && tasks@[i].id == #[trigger] p[k]
                                    && tasks@[i].next == after(p, k);
                            let x = p[k];
                            assert(b.rows@[x as int] is Some);
                            let a = at@[x as int] as int;
                            assert(tasks@[a].id == x);
                            if a != i {
                                assert(tasks@[a].id != tasks@[i].id);
                            }
                        }
                        assert(b.follows(raw@, root_next, p));
                    }
                }
                return Err(e);
            },
        };
        b.link_in_order(&order);
        proof {
            assert forall|x: u64| #[trigger] b.is_task(x) implies exists|i: int|
                0 <= i < tasks@.len() && tasks@[i].id == x by {
                assert(tasks@[at@[x as int] as int].id == x);
            }
            assert forall|j: int| 0 <= j < b.chain().len() implies exists|i: int|
                0 <= i < tasks@.len() && tasks@[i].id == #[trigger] b.chain()[j]
                    && tasks@[i].next == after(b.chain(), j) by {
                let x = b.chain()[j];
                assert(b.is_task(x));
                assert(tasks@[at@[x as int] as int].id == x);
            }
        }
        Ok(b)
    }

    /// The id of a task that has no status record, if there is one.
    fn check_statuses(&self) -> (r: Option<u64>)
        requires
            1 <= self.rows@.len(),
        ensures
            match r {
                Some(x) => self.is_task(x) && latest_status(self.statuses@, x) is None,
                None => forall|y: u64| #[trigger] self.is_task(y) ==> latest_status(self.statuses@, y) is Some,
            },
    {
        let mut x: usize = 1;
        while x < self.rows.len()
            invariant
                1 <= x <= self.rows@.len(),
                forall|y: u64| 0 < y < x && #[trigger] self.is_task(y) ==> latest_status(self.statuses@, y) is Some,
            decreases self.rows@.len() - x,
        {
            if self.rows[x].is_some() && current_status(&self.statuses, x as u64).is_none() {
                return Some(x as u64);
            }
            x = x + 1;
        }
        None
    }

    /// Follows the stored pointers `raw` (index = id) from `start`, for at
    /// most as many steps as there are ids, and returns the ids met; fails
    /// where an id repeats or is not a task.
    fn walk(&self, raw: &Vec<Option<u64>>, start: Option<u64>) -> (r: Result<Vec<u64>, Error>)
        requires
            self.wf(),
            raw@.len() == self.rows@.len(),
        ensures
            match r {
                Ok(order) => {
                    &&& order@.no_duplicates()
                    &&& forall|k: int| 0 <= k < order@.len() ==> self.is_task(#[trigger] order@[k])
                    &&& head(order@) == start
                    &&& forall|k: int|
                        0 <= k < order@.len() ==> raw@[#[trigger] order@[k] as int] == after(
                            order@,
                            k,
                        )
                },
                Err(e) => e == Error::CorruptChain && forall|p: Seq<u64>| !#[trigger] self.follows(raw@, start, p),
            },
    {
        let mut order: Vec<u64> = Vec::new();
        let mut seen: Vec<bool> = Vec::new();
        let mut j: usize = 0;
        while j < self.rows.len()
            invariant
                j <= self.rows@.len(),
                seen@.len() == j,
                forall|k: int| 0 <= k < j ==> !seen@[k],
            decreases self.rows@.len() - j,
        {
            seen.push(false);
            j = j + 1;
        }
        let mut cur = start;
        let mut steps: usize = 0;
        while cur.is_some()
            invariant
                self.wf(),
                raw@.len() == self.rows@.len(),
                seen@.len() == self.rows@.len(),
                steps == order@.len(),
                steps <= self.rows@.len(),
                order@.no_duplicates(),
                forall|y: int|
                    0 <= y < seen@.len() ==> (#[trigger] seen@[y] <==> order@.contains(y as u64)),
                forall|k: int| 0 <= k < order@.len() ==> self.is_task(#[trigger] order@[k]),
                forall|k: int|
                    0 <= k < order@.len() ==> raw@[#[trigger] order@[k] as int] == if k + 1
                        < order@.len() {
                        Some(order@[k + 1])
                    } else {
                        cur
                    },
                order@.len() == 0 ==> cur == start,
                order@.len() > 0 ==> start == Some(order@[0]),
                forall|p: Seq<u64>|
                    #[trigger] self.follows(raw@, start, p) ==> steps <= p.len() && order@ == p.take(
                        steps as int,
                    ) && cur == if steps < p.len() {
                        Some(p[steps as int])
                    } else {
                        None::<u64>
                    },
            decreases self.rows@.len() - steps,
        {
            let y = cur.unwrap();
            if steps >= self.rows.len() || !self.has_task(y) || seen[y as usize] {
                assert forall|p: Seq<u64>| !#[trigger] self.follows(raw@, start, p) by {
                    if self.follows(raw@, start, p) {
                        assert(p[steps as int] == y);
                        assert(self.is_task(p[steps as int]));
                        if seen@[y as int] {
                            let k = choose|k: int| 0 <= k < order@.len() && order@[k] == y;
                            assert(p[k] == p[steps as int]);
                        }
                        lemma_distinct_below(p, self.rows@.len());
                    }
                }
                return Err(Error::CorruptChain);
            }
            seen.set(y as usize, true);
            let ghost o = order@;
            order.push(y);
            assert forall|a: int, c: int|
                0 <= a < order@.len() && 0 <= c < order@.len() && a != c implies order@[a]
                != order@[c] by {
                if a < o.len() && c < o.len() {
                    assert(order@[a] == o[a] && order@[c] == o[c]);
                } else if a == o.len() {
                    assert(!o.contains(y));
                    assert(order@[c] == o[c]);
                } else {
                    assert(!o.contains(y));
                    assert(order@[a] == o[a]);
                }
            }
            assert forall|z: int| 0 <= z < seen@.len() implies (#[trigger] seen@[z]
                <==> order@.contains(z as u64)) by {
                if z == y as int {
                    assert(order@[o.len() as int] == y);
                } else {
                    if order@.contains(z as u64) {
                        let k = choose|k: int| 0 <= k < order@.len() && order@[k] == z as u64;
                        assert(o[k] == z as u64);
                    }
                    if o.contains(z as u64) {
                        let k = choose|k: int| 0 <= k < o.len() && o[k] == z as u64;
                        assert(order@[k] == z as u64);
                    }
                }
            }
            cur = raw[y as usize];
            steps = steps + 1;
            assert forall|p: Seq<u64>| #[trigger] self.follows(raw@, start, p) implies steps <= p.len()
                && order@ == p.take(steps as int) && cur == if steps < p.len() {
                Some(p[steps as int])
            } else {
                None::<u64>
            } by {
                assert(p[steps - 1] == y);
                assert(order@ =~= p.take(steps as int));
                assert(raw@[p[steps - 1] as int] == after(p, steps - 1));
            }
        }
        Ok(order)
    }

    /// The stored pointers `raw` (index = id) describe the chain `p`: it
    /// starts at `start`, holds distinct tasks, and each points at the next.
    pub closed spec fn follows(&self, raw: Seq<Option<u64>>, start: Option<u64>, p: Seq<u64>) -> bool {
        &&& p.no_duplicates()
        &&& head(p) == start
        &&& forall|k: int|
            0 <= k < p.len() ==> self.is_task(#[trigger] p[k]) && raw[p[k] as int] == after(p, k)
    }

    /// Puts the ids of `order`, tasks without duplicates, in the chain in that
    /// order, starting from an empty chain.
    fn link_in_order(&mut self, order: &Vec<u64>)
        requires
            old(self).wf(),
            old(self).chain().len() == 0,
            order@.no_duplicates(),
            forall|m: int| 0 <= m < order@.len() ==> old(self).is_task(#[trigger] order@[m]),
        ensures
            final(self).wf(),
            final(self).same_tasks(old(self)),
            final(self).status_log() == old(self).status_log(),
            final(self).chain() == order@,
    {
        let mut k: usize = order.len();
        assert(order@.skip(k as int) =~= Seq::<u64>::empty());
        while k > 0
            invariant
                self.wf(),
                k <= order@.len(),
                order@.no_duplicates(),
                forall|m: int| 0 <= m < order@.len() ==> old(self).is_task(#[trigger] order@[m]),
                self.same_tasks(old(self)),
                self.status_log() == old(self).status_log(),
                self.chain() == order@.skip(k as int),
            decreases k,
        {
            k = k - 1;
            let y = order[k];
            let ghost before = self.chain();
            assert(self.is_task(y));
            let _ = self.prioritize(y);
            proof {
                assert(!before.contains(y)) by {
                    if before.contains(y) {
                        let m = choose|m: int| 0 <= m < before.len() && before[m] == y;
                        assert(order@[k + 1 + m] == y);
                    }
                }
                assert(self.chain() =~= order@.skip(k as int));
            }
        }
        assert(order@.skip(0) =~= order@);
    }

    /// Moves the task at offset `k` of the chain to the front; it must be
    /// there.
    fn promote(&mut self, k: u8) -> (writes: Vec<Change>)
        requires
            old(self).wf(),
            (k as int) < old(self).chain().len(),
        ensures
            final(self).wf(),
            final(self).same_tasks(old(self)),
            final(self).status_log() == old(self).status_log(),
            final(self).chain() == seq![old(self).chain()[k as int]] + old(self).chain().remove(
                k as int,
            ),
            replay(old(self).links(), writes@) == final(self).links(),
            only_links(writes@),
    {
        proof {
            self.lemma_wf();
            lemma_prioritized_member(self.chain@, k as int);
        }
        let x = match self.task_at(k) {
            Some(x) => x,
            None => 0,
        };
        match self.prioritize(x) {
            Ok(w) => w,
            Err(_) => Vec::new(),
        }
    }

    /// Promotes the second task of the chain to first; with fewer than two
    /// tasks nothing changes.
    pub fn swap_top_two(&mut self) -> (writes: Vec<Change>)
        requires
            old(self).wf(),
        ensures
            final(self).wf(),
            final(self).same_tasks(old(self)),
            final(self).status_log() == old(self).status_log(),
            final(self).chain() == swapped(old(self).chain()),
            replay(old(self).links(), writes@) == final(self).links(),
            only_links(writes@),
    {
        let ghost c = self.chain@;
        if self.task_at(1).is_none() {
            return Vec::new();
        }
        let w = self.promote(1);
        assert(self.chain@ =~= swapped(c));
        w
    }

    /// Brings the deepest of the top three tasks to the front (`a b c`
    /// becomes `c a b`; `a b` becomes `b a`).
    pub fn rot(&mut self) -> (writes: Vec<Change>)
        requires
            old(self).wf(),
        ensures
            final(self).wf(),
            final(self).same_tasks(old(self)),
            final(self).status_log() == old(self).status_log(),
            final(self).chain() == rotated(old(self).chain()),
            replay(old(self).links(), writes@) == final(self).links(),
            only_links(writes@),
    {
        let ghost c = self.chain@;
        let depth: u8 = if self.task_at(2).is_some() {
            3
        } else if self.task_at(1).is_some() {
            2
        } else {
            return Vec::new();
        };
        assert(depth == rotation_depth(c));
        let w = self.promote(depth - 1);
        assert(self.chain@ =~= rotated(c));
        w
    }

    /// Sends the top task below the next two (`a b c` becomes `b c a`;
    /// `a b` becomes `b a`).
    pub fn nrot(&mut self) -> (writes: Vec<Change>)
        requires
            old(self).wf(),
        ensures
            final(self).wf(),
            final(self).same_tasks(old(self)),
            final(self).status_log() == old(self).status_log(),
            final(self).chain() == counter_rotated(old(self).chain()),
            replay(old(self).links(), writes@) == final(self).links(),
            only_links(writes@),
    {
        let ghost c = self.chain@;
        let ghost l0 = self.links@;
        if self.task_at(2).is_some() {
            let mut w = self.promote(2);
            let ghost l1 = self.links@;
            let mut w2 = self.promote(2);
            assert(self.chain@ =~= counter_rotated(c));
            proof {
                lemma_replay_concat(l0, w@, w2@);
            }
            w.append(&mut w2);
            w
        } else if self.task_at(1).is_some() {
            let w = self.promote(1);
            assert(self.chain@ =~= counter_rotated(c));
            w
        } else {
            Vec::new()
        }
    }

    /// The id that an identifier names: a task id as given, or the task at
    /// that offset from the top of the chain.
    pub fn resolve(&self, id: TaskIdentifier) -> (r: Result<u64, Error>)
        requires
            self.wf(),
        ensures
            r == resolved(self.chain(), |y: u64| self.is_task(y), id),
    {
        match id {
            TaskIdentifier::Task(x) => if self.has_task(x) {
                Ok(x)
            } else {
                Err(Error::UnknownTask(x))
            },
            TaskIdentifier::Stack(k) => match self.task_at(k) {
                Some(x) => Ok(x),
                None => Err(Error::NoTaskAt(k)),
            },
        }
    }

    /// Appends a content record for task `x`, written at `now`; the latest
    /// write is the current content.
    pub fn update_content(
        &mut self,
        x: u64,
        body: Option<String>,
        link: Option<String>,
        now: i64,
    ) -> (r: Result<Vec<Change>, Error>)
        requires
            old(self).wf(),
        ensures
            final(self).wf(),
            final(self).chain() == old(self).chain(),
            final(self).links() == old(self).links(),
            final(self).status_log() == old(self).status_log(),
            final(self).next_id() == old(self).next_id(),
            final(self).tags() == old(self).tags(),
            forall|y: u64| #[trigger] final(self).is_task(y) == old(self).is_task(y),
            forall|y: u64| #[trigger] final(self).title(y) == old(self).title(y),
            forall|y: u64| #[trigger] final(self).created(y) == old(self).created(y),
            match r {
                Ok(writes) => {
                    &&& old(self).is_task(x)
                    &&& final(self).content_log() == old(self).content_log().push(
                        ContentRecord { task: x, body, link, at: now },
                    )
                    &&& writes@ == seq![Change::Content(old(self).content_log().len() as usize)]
                },
                Err(e) => {
                    &&& !old(self).is_task(x)
                    &&& e == Error::UnknownTask(x)
                    &&& final(self).content_log() == old(self).content_log()
                },
            },
    {
        if !self.has_task(x) {
            return Err(Error::UnknownTask(x));
        }
        let at = self.contents.len();
        self.contents.push(ContentRecord { task: x, body, link, at: now });
        assert forall|j: int| 0 <= j < self.chain@.len() implies self.is_task(
            #[trigger] self.chain@[j],
        ) by {
            assert(old(self).is_task(self.chain@[j]));
        }
        assert forall|y: u64| #[trigger] self.is_task(y) implies latest_status(
            self.statuses@,
            y,
        ) is Some by {
            assert(old(self).is_task(y));
        }
        Ok(vec![Change::Content(at)])
    }

    /// Makes a tag with the given name, where none has it yet.
    pub fn add_tag(&mut self, name: String) -> (r: Option<usize>)
        requires
            old(self).wf(),
        ensures
            final(self).wf(),
            final(self).chain() == old(self).chain(),
            final(self).links() == old(self).links(),
            final(self).status_log() == old(self).status_log(),
            final(self).content_log() == old(self).content_log(),
            final(self).next_id() == old(self).next_id(),
            forall|y: u64| #[trigger] final(self).is_task(y) == old(self).is_task(y),
            forall|y: u64| #[trigger] final(self).title(y) == old(self).title(y),
            forall|y: u64| #[trigger] final(self).created(y) == old(self).created(y),
            old(self).tags().contains(name@) ==> r is None && final(self).tags() == old(
                self,
            ).tags(),
            !old(self).tags().contains(name@) ==> r == Some(old(self).tags().len() as usize)
                && final(self).tags() == old(self).tags().push(name@),
    {
        let mut i: usize = 0;
        while i < self.tags.len()
            invariant
                *self == *old(self),
                old(self).wf(),
                i <= self.tags@.len(),
                forall|k: int| 0 <= k < i ==> self.tags@[k]@ != name@,
            decreases self.tags@.len() - i,
        {
            if self.tags[i] == name {
                assert(self.tags()[i as int] == name@);
                return None;
            }
            i = i + 1;
        }
        assert(!self.tags().contains(name@));
        let at = self.tags.len();
        let ghost before = self.tags();
        self.tags.push(name);
        assert(self.tags() =~= before.push(name@));
        assert forall|j: int| 0 <= j < self.chain@.len() implies self.is_task(
            #[trigger] self.chain@[j],
        ) by {
            assert(old(self).is_task(self.chain@[j]));
        }
        assert forall|y: u64| #[trigger] self.is_task(y) implies latest_status(
            self.statuses@,
            y,
        ) is Some by {
            assert(old(self).is_task(y));
        }
        Some(at)
    }

    /// The tag at place `i`, in the order made.
    pub fn tag(&self, i: usize) -> (r: Option<&String>)
        ensures
            match r {
                Some(s) => i < self.tags().len() && s@ == self.tags()[i as int],
                None => i >= self.tags().len(),
            },
    {
        if i < self.tags.len() {
            Some(&self.tags[i])
        } else {
            None
        }
    }

    /// The content record at place `i` of the content log.
    pub fn content_record(&self, i: usize) -> (r: Option<&ContentRecord>)
        ensures
            match r {
                Some(rec) => i < self.content_log().len() && *rec == self.content_log()[i as int],
                None => i >= self.content_log().len(),
            },
    {
        if i < self.contents.len() {
            Some(&self.contents[i])
        } else {
            None
        }
    }

    /// Task `x` with its title, creation time, current status and current
    /// content; the link of the content is dropped where it does not parse.
    pub fn get_task(&self, x: u64) -> (r: Result<Task, Error>)
        requires
            self.wf(),
        ensures
            match r {
                Ok(t) => {
                    &&& self.is_task(x)
                    &&& t.id == x
                    &&& t.title@ == self.title(x)
                    &&& t.status == self.status_of(x)
                    &&& t.created == self.created(x)
                    &&& match latest_content(self.content_log(), x) {
                        None => t.content is None,
                        Some(i) => {
                            let rec = self.content_log()[i];
                            let link_ok = rec.link is Some && uri_accepts(rec.link->0@);
                            &&& t.content is Some == (rec.body is Some || link_ok)
                            &&& t.content is Some ==> text_of(t.content->0.body) == text_of(rec.body)
                                && t.content->0.link is Some == link_ok
                        },
                    }
                },
                Err(e) => !self.is_task(x) && e == Error::UnknownTask(x),
            },
    {
        if !self.has_task(x) {
            return Err(Error::UnknownTask(x));
        }
        let (title, created) = self.row_of(x);
        let status = current_status(&self.statuses, x).unwrap().status;
        let mut task = Task::new(x, status, title, created);
        match current_content(&self.contents, x) {
            Some(i) => {
                match content_of(&self.contents[i]) {
                    Some(c) => {
                        task.set_content(c);
                    },
                    None => {},
                }
            },
            None => {},
        }
        Ok(task)
    }
}

/// The id that an identifier names, given the chain and which ids are tasks.
pub open spec fn resolved(c: Seq<u64>, is_task: spec_fn(u64) -> bool, id: TaskIdentifier) -> Result<
    u64,
    Error,
> {
    match id {
        TaskIdentifier::Task(x) => if is_task(x) {
            Ok(x)
        } else {
            Err(Error::UnknownTask(x))
        },
        TaskIdentifier::Stack(k) => if (k as int) < c.len() {
            Ok(c[k as int])
        } else {
            Err(Error::NoTaskAt(k))
        },
    }
}

/// Replaying two runs of changes one after the other is replaying them
/// joined.
pub proof fn lemma_replay_concat(l: Seq<Option<u64>>, a: Seq<Change>, b: Seq<Change>)
    ensures
        replay(l, a + b) == replay(replay(l, a), b),
    decreases b.len(),
{
    if b.len() == 0 {
        assert(a + b =~= a);
    } else {
        assert((a + b).drop_last() =~= a + b.drop_last());
        lemma_replay_concat(l, a, b.drop_last());
    }
}

/// Changes that set no pointer leave the pointers as they were.
pub proof fn lemma_replay_no_links(l: Seq<Option<u64>>, w: Seq<Change>)
    requires
        forall|i: int| 0 <= i < w.len() ==> !(#[trigger] w[i] is Link),
    ensures
        replay(l, w) == l,
    decreases w.len(),
{
    if w.len() > 0 {
        assert(!(w[w.len() - 1] is Link));
        lemma_replay_no_links(l, w.drop_last());
    }
}

/// The status log holds the stored records in order, each with its code
/// read as a status.
pub open spec fn loaded_statuses(log: Seq<StatusRecord>, stored: Seq<StoredStatus>) -> bool {
    &&& log.len() == stored.len()
    &&& forall|i: int|
        0 <= i < stored.len() ==> {
            &&& (#[trigger] log[i]).task == stored[i].task
            &&& status_code(log[i].status) == stored[i].code
            &&& log[i].at == stored[i].at
        }
}

/// The slots hold the first `n` stored rows: slot 0 is the root's, each row
/// sits at its id, and `at` and `raw` give, for each filled slot, the row it
/// came from and that row's `next` pointer.
spec fn rows_hold(
    rows: Seq<Option<Row>>,
    raw: Seq<Option<u64>>,
    at: Seq<usize>,
    tasks: Seq<StoredTask>,
    n: int,
) -> bool {
    &&& 1 <= rows.len() <= usize::MAX
    &&& rows.len() == raw.len()
    &&& rows.len() == at.len()
    &&& rows[0] is None
    &&& forall|k: int|
        0 <= k < n ==> {
            let x = (#[trigger] tasks[k]).id as int;
            &&& 0 < x < rows.len()
            &&& rows[x] is Some
            &&& rows[x]->0.title@ == tasks[k].title@
            &&& rows[x]->0.created == tasks[k].created
        }
    &&& forall|x: int|
        0 < x < rows.len() && (#[trigger] rows[x]) is Some ==> {
            let k = at[x] as int;
            &&& 0 <= k < n
            &&& tasks[k].id == x
            &&& raw[x] == tasks[k].next
        }
}

/// The stored rows placed at their ids, with the row each slot came from and
/// its `next` pointer; fails where the ids do not ascend.
fn load_rows(tasks: &Vec<StoredTask>) -> (r: Result<(Vec<Option<Row>>, Vec<Option<u64>>, Vec<usize>), Error>)
    ensures
        match r {
            Ok((rows, raw, at)) => rows_hold(rows@, raw@, at@, tasks@, tasks@.len() as int),
            Err(e) => (e is OutOfOrder || e is IdsExhausted) && !rows_ascend(tasks@),
        },
{
    let mut rows: Vec<Option<Row>> = vec![None];
    let mut raw: Vec<Option<u64>> = vec![None];
    let mut at: Vec<usize> = vec![0];
    let mut i: usize = 0;
    while i < tasks.len()
        invariant
            i <= tasks@.len(),
            rows_hold(rows@, raw@, at@, tasks@, i as int),
            rows@.len() == if i == 0 {
                1
            } else {
                tasks@[i - 1].id + 1
            },
        decreases tasks@.len() - i,
    {
        let t = &tasks[i];
        if t.id == 0 || t.id < rows.len() as u64 {
            return Err(Error::OutOfOrder(t.id));
        }
        if t.id >= usize::MAX as u64 {
            return Err(Error::IdsExhausted);
        }
        let id = t.id as usize;
        while rows.len() < id
            invariant
                rows@.len() <= id < usize::MAX,
                rows_hold(rows@, raw@, at@, tasks@, i as int),
            decreases id - rows@.len(),
        {
            rows.push(None);
            raw.push(None);
            at.push(0);
        }
        rows.push(Some(Row { title: t.title.clone(), created: t.created }));
        raw.push(t.next);
        at.push(i);
        i = i + 1;
    }
    Ok((rows, raw, at))
}

/// The stored status records with their codes read; fails on a code that
/// names no status or a record of an id that is no task.
fn load_statuses(statuses: &Vec<StoredStatus>, rows: &Vec<Option<Row>>) -> (r: Result<Vec<StatusRecord>, Error>)
    ensures
        match r {
            Ok(recs) => loaded_statuses(recs@, statuses@) && forall|k: int|
                0 <= k < recs@.len() ==> {
                    let x = (#[trigger] recs@[k]).task;
                    0 < x < rows@.len() && rows@[x as int] is Some
                },
            Err(e) => exists|s: int|
                0 <= s < statuses@.len() && (#[trigger] statuses@[s].code > 4 || {
                    let x = statuses@[s].task;
                    x == 0 || x >= rows@.len() || rows@[x as int] is None
                }) && (e is InvalidStatus || e is UnknownTask),
        },
{
    let mut recs: Vec<StatusRecord> = Vec::new();
    let mut s: usize = 0;
    while s < statuses.len()
        invariant
            s <= statuses@.len(),
            recs@.len() == s,
            forall|k: int|
                0 <= k < s ==> {
                    let x = (#[trigger] recs@[k]).task;
                    0 < x < rows@.len() && rows@[x as int] is Some
                },
            forall|k: int|
                0 <= k < s ==> {
                    &&& (#[trigger] recs@[k]).task == statuses@[k].task
                    &&& status_code(recs@[k].status) == statuses@[k].code
                    &&& recs@[k].at == statuses@[k].at
                },
        decreases statuses@.len() - s,
    {
        let st = statuses[s];
        let status = match TaskStatus::try_from(st.code) {
            Ok(v) => v,
            Err(e) => {
                assert(statuses@[s as int].code > 4);
                return Err(e);
            },
        };
        let x = st.task;
        if x == 0 || x >= rows.len() as u64 || rows[x as usize].is_none() {
            assert(statuses@[s as int].task == x);
            return Err(Error::UnknownTask(x));
        }
        recs.push(StatusRecord { task: x, status, at: st.at });
        s = s + 1;
    }
    Ok(recs)
}

/// The stored rows have ids that ascend, above the root's and below the
/// bound of the arena.
pub open spec fn rows_ascend(tasks: Seq<StoredTask>) -> bool {
    &&& forall|i: int| 0 <= i < tasks.len() ==> 0 < #[trigger] tasks[i].id < usize::MAX
    &&& forall|i: int, j: int| 0 <= i < j < tasks.len() ==> tasks[i].id < tasks[j].id
}

/// A sequence of distinct ids below `n` holds at most `n` of them.
proof fn lemma_distinct_below(s: Seq<u64>, n: nat)
    requires
        s.no_duplicates(),
        forall|i: int| 0 <= i < s.len() ==> 0 < #[trigger] s[i] < n,
    ensures
        s.len() < n || s.len() == 0,
{
    let t = s.map_values(|x: u64| x as int);
    assert forall|a: int, b: int| 0 <= a < t.len() && 0 <= b < t.len() && a != b implies t[a]
        != t[b] by {
        assert(t[a] == s[a] as int && t[b] == s[b] as int);
    }
    t.unique_seq_to_set();
    if s.len() > 0 {
        assert(0 < s[0] < n);
        lemma_int_range(1, n as int);
        assert forall|x: int| t.to_set().contains(x) implies set_int_range(1, n as int).contains(x) by {
            let i = choose|i: int| 0 <= i < t.len() && t[i] == x;
            assert(t[i] == s[i] as int);
        }
        lemma_len_subset(t.to_set(), set_int_range(1, n as int));
    }
}

/// The stored pointers describe the chain `p` from `start`: its ids are
/// distinct, and each names a stored row whose pointer is the next id.
pub open spec fn stored_chain(tasks: Seq<StoredTask>, start: Option<u64>, p: Seq<u64>) -> bool {
    &&& p.no_duplicates()
    &&& head(p) == start
    &&& forall|k: int|
        0 <= k < p.len() ==> exists|i: int|
            0 <= i < tasks.len() && tasks[i].id == #[trigger] p[k] && tasks[i].next == after(p, k)
}

/// What storage holds is consistent: the ids ascend, every status record
/// has a valid code and names a stored row, every row has a status record,
/// and the pointers from the root describe a chain.
pub open spec fn consistent_store(
    tasks: Seq<StoredTask>,
    root_next: Option<u64>,
    statuses: Seq<StoredStatus>,
) -> bool {
    &&& rows_ascend(tasks)
    &&& forall|s: int|
        0 <= s < statuses.len() ==> #[trigger] statuses[s].code <= 4 && exists|i: int|
            0 <= i < tasks.len() && tasks[i].id == statuses[s].task
    &&& forall|i: int|
        0 <= i < tasks.len() ==> exists|s: int|
            0 <= s < statuses.len() && statuses[s].task == #[trigger] tasks[i].id
    &&& exists|p: Seq<u64>| stored_chain(tasks, root_next, p)
}

/// A task with a record in the log has a current record.
proof fn lemma_latest_some(log: Seq<StatusRecord>, s: int, x: u64)
    requires
        0 <= s < log.len(),
        log[s].task == x,
    ensures
        latest_status(log, x) is Some,
    decreases log.len(),
{
    if s < log.len() - 1 {
        lemma_latest_some(log.drop_last(), s, x);
    }
}

/// Joining runs of writes joins the status records they append.
pub proof fn lemma_statuses_concat(a: Seq<Change>, b: Seq<Change>)
    ensures
        statuses_in(a + b) == statuses_in(a) + statuses_in(b),
    decreases b.len(),
{
    if b.len() == 0 {
        assert(a + b =~= a);
        assert(statuses_in(a) + statuses_in(b) =~= statuses_in(a));
    } else {
        assert((a + b).drop_last() =~= a + b.drop_last());
        lemma_statuses_concat(a, b.drop_last());
        match b.last() {
            Change::Status(r) => {
                assert(statuses_in(a) + statuses_in(b.drop_last()).push(r) =~= (statuses_in(a)
                    + statuses_in(b.drop_last())).push(r));
            },
            _ => {},
        }
    }
}

/// Writes that set pointers only append no status record.
pub proof fn lemma_statuses_of_links(w: Seq<Change>)
    requires
        only_links(w),
    ensures
        statuses_in(w) == Seq::<StatusRecord>::empty(),
    decreases w.len(),
{
    if w.len() > 0 {
        assert(w[w.len() - 1] is Link);
        lemma_statuses_of_links(w.drop_last());
    }
}

} // verus!
