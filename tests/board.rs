use tsk::board::{Board, Change, StoredStatus, StoredTask};
use tsk::command::{HomeCommand, TaskIdentifier};
use tsk::error::Error;
use tsk::parse::parse_command;
use tsk::session::{execute, Outcome};
use tsk::status::TaskStatus;

fn run(b: &mut Board, line: &str, now: i64) -> Result<(Outcome, Vec<Change>), Error> {
    let cmd = parse_command(line).expect("a command");
    execute(b, &cmd, now)
}

fn top_ids(b: &Board, n: u16) -> Vec<u64> {
    b.get_top_n_tasks(n).iter().map(|t| t.id).collect()
}

fn new_task(b: &mut Board, title: &str, now: i64) -> u64 {
    let (id, _) = b.create_task(title.to_string(), now).expect("an id");
    id
}

#[test]
fn push_creates_a_task_at_the_front() {
    let mut b = Board::new();
    let (o, _) = run(&mut b, "push buy milk", 100).unwrap();
    assert_eq!(o, Outcome::Continue);
    let top = b.get_top_n_tasks(1);
    assert_eq!(top.len(), 1);
    assert_eq!(top[0].id, 1);
    assert_eq!(top[0].title, "buy milk");
    assert_eq!(top[0].status, TaskStatus::Todo);
    assert_eq!(top[0].created, 100);
}

#[test]
fn complete_without_argument_takes_the_top() {
    let mut b = Board::new();
    run(&mut b, "push A", 1).unwrap();
    run(&mut b, "push B", 2).unwrap();
    let a = 1;
    let bb = 2;
    assert_eq!(top_ids(&b, 5), vec![bb, a]);
    run(&mut b, "complete", 3).unwrap();
    assert_eq!(top_ids(&b, 5), vec![a]);
    let t = b.get_task(bb).unwrap();
    assert_eq!(t.status, TaskStatus::Complete);
    assert_eq!(b.get_task(a).unwrap().status, TaskStatus::Todo);
}

#[test]
fn swap_promotes_the_second() {
    let mut b = Board::new();
    let x = new_task(&mut b, "x", 1);
    let y = new_task(&mut b, "y", 1);
    let z = new_task(&mut b, "z", 1);
    b.prioritize(z).unwrap();
    b.prioritize(y).unwrap();
    b.prioritize(x).unwrap();
    assert_eq!(top_ids(&b, 10), vec![x, y, z]);
    run(&mut b, "swap", 2).unwrap();
    assert_eq!(top_ids(&b, 10), vec![y, x, z]);
}

#[test]
fn swap_with_one_task_does_nothing() {
    let mut b = Board::new();
    let x = new_task(&mut b, "x", 1);
    b.prioritize(x).unwrap();
    assert!(b.swap_top_two().is_empty());
    assert_eq!(top_ids(&b, 10), vec![x]);
}

#[test]
fn rotations_turn_the_top_three() {
    let mut b = Board::new();
    let ids: Vec<u64> = (0..4).map(|i| new_task(&mut b, &format!("t{i}"), 1)).collect();
    for id in ids.iter().rev() {
        b.prioritize(*id).unwrap();
    }
    let (p, q, r, s) = (ids[0], ids[1], ids[2], ids[3]);
    assert_eq!(top_ids(&b, 10), vec![p, q, r, s]);
    run(&mut b, "rot", 2).unwrap();
    assert_eq!(top_ids(&b, 10), vec![r, p, q, s]);
    run(&mut b, "-rot", 3).unwrap();
    assert_eq!(top_ids(&b, 10), vec![p, q, r, s]);
    run(&mut b, "-", 3).unwrap();
    assert_eq!(top_ids(&b, 10), vec![q, r, p, s]);
}

#[test]
fn rotations_of_two() {
    let mut b = Board::new();
    let x = new_task(&mut b, "x", 1);
    let y = new_task(&mut b, "y", 1);
    b.prioritize(y).unwrap();
    b.prioritize(x).unwrap();
    b.rot();
    assert_eq!(top_ids(&b, 10), vec![y, x]);
    b.nrot();
    assert_eq!(top_ids(&b, 10), vec![x, y]);
}

#[test]
fn prioritize_twice_is_prioritize_once() {
    let mut b = Board::new();
    let x = new_task(&mut b, "x", 1);
    let y = new_task(&mut b, "y", 1);
    let z = new_task(&mut b, "z", 1);
    for id in [z, y, x] {
        b.prioritize(id).unwrap();
    }
    b.prioritize(y).unwrap();
    let once = top_ids(&b, 10);
    b.prioritize(y).unwrap();
    assert_eq!(top_ids(&b, 10), once);
    assert_eq!(once, vec![y, x, z]);
}

#[test]
fn deprioritize_then_prioritize_puts_it_in_front() {
    let mut b = Board::new();
    let x = new_task(&mut b, "x", 1);
    let y = new_task(&mut b, "y", 1);
    let z = new_task(&mut b, "z", 1);
    for id in [z, y, x] {
        b.prioritize(id).unwrap();
    }
    b.deprioritize(y);
    assert_eq!(top_ids(&b, 10), vec![x, z]);
    b.prioritize(y).unwrap();
    assert_eq!(top_ids(&b, 10), vec![y, x, z]);
}

#[test]
fn no_duplicates_after_many_moves() {
    let mut b = Board::new();
    let ids: Vec<u64> = (0..6).map(|i| new_task(&mut b, &format!("t{i}"), 1)).collect();
    for (k, id) in ids.iter().enumerate() {
        b.prioritize(*id).unwrap();
        if k % 2 == 0 {
            b.deprioritize(ids[k / 2]);
        }
        b.prioritize(ids[(k * 5) % 6]).unwrap();
    }
    let order = top_ids(&b, 100);
    let mut sorted = order.clone();
    sorted.sort();
    sorted.dedup();
    assert_eq!(sorted.len(), order.len());
    assert!(order.len() <= ids.len());
}

#[test]
fn deprioritize_of_an_unlinked_task_does_nothing() {
    let mut b = Board::new();
    let x = new_task(&mut b, "x", 1);
    assert!(b.deprioritize(x).is_empty());
    assert!(b.deprioritize(0).is_empty());
    assert!(b.deprioritize(99).is_empty());
    assert_eq!(top_ids(&b, 10), Vec::<u64>::new());
}

#[test]
fn top_n_stops_at_n() {
    let mut b = Board::new();
    for i in 0..5 {
        run(&mut b, &format!("push t{i}"), i).unwrap();
    }
    assert_eq!(top_ids(&b, 2), vec![5, 4]);
    assert_eq!(top_ids(&b, 0), Vec::<u64>::new());
    assert_eq!(top_ids(&b, 20).len(), 5);
}

#[test]
fn unknown_task_errors() {
    let mut b = Board::new();
    assert_eq!(b.prioritize(7).unwrap_err(), Error::UnknownTask(7));
    assert_eq!(b.prioritize(0).unwrap_err(), Error::UnknownTask(0));
    assert_eq!(b.update_status(3, TaskStatus::Complete, 1).unwrap_err(), Error::UnknownTask(3));
    assert!(matches!(b.get_task(1), Err(Error::UnknownTask(1))));
    assert_eq!(run(&mut b, "rep tsk-4", 1).unwrap_err(), Error::UnknownTask(4));
    assert_eq!(run(&mut b, "drop 2", 1).unwrap_err(), Error::NoTaskAt(2));
}

#[test]
fn stack_positions_count_from_the_top() {
    let mut b = Board::new();
    run(&mut b, "push a", 1).unwrap();
    run(&mut b, "push b", 2).unwrap();
    run(&mut b, "push c", 3).unwrap();
    assert_eq!(top_ids(&b, 10), vec![3, 2, 1]);
    run(&mut b, "drop 1", 4).unwrap();
    assert_eq!(top_ids(&b, 10), vec![3, 1]);
    assert_eq!(b.resolve(TaskIdentifier::Stack(0)).unwrap(), 3);
    assert_eq!(b.resolve(TaskIdentifier::Task(2)).unwrap(), 2);
    run(&mut b, "rep tsk-2", 5).unwrap();
    assert_eq!(top_ids(&b, 10), vec![2, 3, 1]);
}

#[test]
fn start_and_todo_change_the_top() {
    let mut b = Board::new();
    run(&mut b, "push a", 1).unwrap();
    run(&mut b, "start", 2).unwrap();
    assert_eq!(b.get_top_n_tasks(1)[0].status, TaskStatus::InProgress);
    run(&mut b, "t", 3).unwrap();
    assert_eq!(b.get_top_n_tasks(1)[0].status, TaskStatus::Todo);
}

#[test]
fn current_status_is_the_latest_by_time() {
    let mut b = Board::new();
    let x = new_task(&mut b, "x", 10);
    b.update_status(x, TaskStatus::Complete, 30).unwrap();
    b.update_status(x, TaskStatus::Cancelled, 20).unwrap();
    assert_eq!(b.get_task(x).unwrap().status, TaskStatus::Complete);
    b.update_status(x, TaskStatus::Hidden, 30).unwrap();
    assert_eq!(b.get_task(x).unwrap().status, TaskStatus::Hidden);
    assert_eq!(b.status_record(x).unwrap().at, 30);
}

#[test]
fn edit_and_quit_outcomes() {
    let mut b = Board::new();
    run(&mut b, "push a", 1).unwrap();
    assert_eq!(run(&mut b, "edit", 2).unwrap().0, Outcome::Open(1));
    assert_eq!(run(&mut b, "e tsk-1", 2).unwrap().0, Outcome::Open(1));
    assert_eq!(run(&mut b, "quit", 2).unwrap().0, Outcome::Exit);
}

#[test]
fn make_adds_a_tag_once() {
    let mut b = Board::new();
    let (_, w) = run(&mut b, "make home", 1).unwrap();
    assert_eq!(w, vec![Change::Tag(0)]);
    let (_, w) = run(&mut b, "m home", 1).unwrap();
    assert!(w.is_empty());
    assert_eq!(b.tag(0).unwrap(), "home");
    assert!(b.tag(1).is_none());
}

#[test]
fn push_writes_what_storage_needs() {
    let mut b = Board::new();
    let (_, w) = run(&mut b, "push a", 5).unwrap();
    assert_eq!(w[0], Change::Created(1));
    assert!(w.contains(&Change::Link(0, Some(1))));
    assert!(w.contains(&Change::Link(1, None)));
    let (_, w) = run(&mut b, "push b", 6).unwrap();
    assert!(w.contains(&Change::Link(2, Some(1))));
    assert!(w.contains(&Change::Link(0, Some(2))));
}

#[test]
fn content_keeps_the_latest_and_drops_bad_links() {
    let mut b = Board::new();
    let x = new_task(&mut b, "x", 1);
    assert!(b.get_task(x).unwrap().content.is_none());
    b.update_content(x, Some("first".to_string()), None, 5).unwrap();
    b.update_content(x, None, Some("https://example.com/a?b#c".to_string()), 6).unwrap();
    let c = b.get_task(x).unwrap().content.unwrap();
    assert!(c.body.is_none());
    assert!(c.link.is_some());
    b.update_content(x, Some("body".to_string()), Some("http://[::1".to_string()), 7).unwrap();
    let c = b.get_task(x).unwrap().content.unwrap();
    assert_eq!(c.body.as_deref(), Some("body"));
    assert!(c.link.is_none());
    b.update_content(x, None, Some("http://[::1".to_string()), 8).unwrap();
    assert!(b.get_task(x).unwrap().content.is_none());
    assert_eq!(b.update_content(9, None, None, 1).unwrap_err(), Error::UnknownTask(9));
}

#[test]
fn status_codes_and_marks() {
    assert_eq!(TaskStatus::try_from(2).unwrap(), TaskStatus::Complete);
    assert_eq!(TaskStatus::try_from(5).unwrap_err(), Error::InvalidStatus(5));
    assert_eq!(TaskStatus::Hidden.code(), 4);
    assert_eq!(TaskStatus::Todo.to_string(), "[ ]");
    assert_eq!(TaskStatus::InProgress.to_string(), "[/]");
    assert_eq!(TaskStatus::Complete.to_string(), "[x]");
    assert_eq!(TaskStatus::default(), TaskStatus::Todo);
}

fn stored(id: u64, title: &str, next: Option<u64>) -> StoredTask {
    StoredTask { id, title: title.to_string(), created: 7, next }
}

fn status(task: u64, code: u8) -> StoredStatus {
    StoredStatus { task, code, at: 1 }
}

#[test]
fn restore_follows_the_pointers() {
    let tasks = vec![stored(1, "a", None), stored(3, "c", Some(1)), stored(4, "d", None)];
    let statuses = vec![status(1, 0), status(3, 1), status(4, 2)];
    let b = Board::restore(&tasks, Some(3), &statuses).unwrap();
    assert_eq!(top_ids(&b, 10), vec![3, 1]);
    assert_eq!(b.get_task(3).unwrap().status, TaskStatus::InProgress);
    assert_eq!(b.get_task(4).unwrap().title, "d");
    assert!(b.get_task(2).is_err());
}

#[test]
fn restore_rejects_bad_storage() {
    let ok = vec![status(1, 0), status(2, 0)];
    let cyclic = vec![stored(1, "a", Some(2)), stored(2, "b", Some(1))];
    assert_eq!(Board::restore(&cyclic, Some(1), &ok).err(), Some(Error::CorruptChain));
    let dangling = vec![stored(1, "a", Some(9)), stored(2, "b", None)];
    assert_eq!(Board::restore(&dangling, Some(1), &ok).err(), Some(Error::CorruptChain));
    let unordered = vec![stored(2, "b", None), stored(1, "a", None)];
    assert_eq!(Board::restore(&unordered, None, &ok).err(), Some(Error::OutOfOrder(1)));
    let tasks = vec![stored(1, "a", None), stored(2, "b", None)];
    assert_eq!(
        Board::restore(&tasks, None, &vec![status(1, 0)]).err(),
        Some(Error::NoStatus(2))
    );
    assert_eq!(
        Board::restore(&tasks, None, &vec![status(1, 9), status(2, 0)]).err(),
        Some(Error::InvalidStatus(9))
    );
    assert_eq!(
        Board::restore(&tasks, None, &vec![status(5, 0)]).err(),
        Some(Error::UnknownTask(5))
    );
}

#[test]
fn ids_are_never_reused() {
    let mut b = Board::new();
    let a = new_task(&mut b, "a", 1);
    run(&mut b, "complete tsk-1", 2).unwrap();
    let c = new_task(&mut b, "c", 3);
    assert!(c > a);
    let cmd = HomeCommand::Push("d".to_string());
    execute(&mut b, &cmd, 4).unwrap();
    assert_eq!(top_ids(&b, 10), vec![3]);
}

#[test]
fn restore_rejects_an_id_past_the_arena() {
    let tasks = vec![stored(u64::MAX, "far", None)];
    let statuses = vec![status(u64::MAX, 0)];
    assert_eq!(Board::restore(&tasks, None, &statuses).err(), Some(Error::IdsExhausted));
}

#[test]
fn restore_of_nothing_is_an_empty_board() {
    let b = Board::restore(&Vec::new(), None, &Vec::new()).unwrap();
    assert!(b.get_top_n_tasks(20).is_empty());
    let mut b = b;
    let (_, w) = b.create_task("first".to_string(), 3).unwrap();
    assert_eq!(w[0], Change::Created(1));
}

#[test]
fn deprioritize_clears_the_pointer_of_the_task_taken_out() {
    let mut b = Board::new();
    let x = new_task(&mut b, "x", 1);
    let y = new_task(&mut b, "y", 1);
    let z = new_task(&mut b, "z", 1);
    for id in [z, y, x] {
        b.prioritize(id).unwrap();
    }
    let w = b.deprioritize(y);
    assert_eq!(w, vec![Change::Link(x, Some(z)), Change::Link(y, None)]);
    assert_eq!(top_ids(&b, 10), vec![x, z]);
}

#[test]
fn second_prioritize_writes_the_same_pointers() {
    let mut b = Board::new();
    let x = new_task(&mut b, "x", 1);
    let y = new_task(&mut b, "y", 1);
    b.prioritize(y).unwrap();
    b.prioritize(x).unwrap();
    let w = b.prioritize(x).unwrap();
    assert_eq!(w, vec![Change::Link(0, Some(y)), Change::Link(x, Some(y)), Change::Link(0, Some(x))]);
    assert_eq!(top_ids(&b, 10), vec![x, y]);
}

#[test]
fn a_new_task_starts_as_todo_even_with_an_old_clock() {
    let mut b = Board::new();
    let x = new_task(&mut b, "x", 50);
    b.update_status(x, TaskStatus::Complete, 60).unwrap();
    let y = new_task(&mut b, "y", 10);
    assert_eq!(b.get_task(y).unwrap().status, TaskStatus::Todo);
    assert_eq!(b.status_record(y).unwrap().at, 10);
}
