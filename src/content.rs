//! The body text and link attached to a task.
use vstd::prelude::*;

verus! {

#[verifier::external_type_specification]
#[verifier::external_body]
pub struct ExUri(uris::Uri);

/// Whether the `uris` crate accepts the text as a URI reference.
pub uninterp spec fn uri_accepts(s: Seq<char>) -> bool;

/// Relies on `uris::Uri::parse`: it returns `Ok` exactly on the texts it
/// accepts as URI references, and depends on the text alone.
#[verifier::external_body]
fn parse_uri(text: &str) -> (r: Option<uris::Uri>)
    ensures
        r is Some == uri_accepts(text@),
{
    uris::Uri::parse(text).ok()
}

/// One write of a task's content, kept in an append-only log: the link is
/// kept as the text that was given.
pub struct ContentRecord {
    pub task: u64,
    pub body: Option<String>,
    pub link: Option<String>,
    pub at: i64,
}

/// What is attached to a task: a body text, a parsed link, or both.
pub struct TaskContent {
    pub body: Option<String>,
    pub link: Option<uris::Uri>,
}

/// The text an optional string holds.
pub open spec fn text_of(s: Option<String>) -> Option<Seq<char>> {
    match s {
        Some(t) => Some(t@),
        None => None,
    }
}

/// The place in the log of the current content of task `x`: the write with
/// the latest time, and of several with that time the one appended last.
pub open spec fn latest_content(log: Seq<ContentRecord>, x: u64) -> Option<int>
    decreases log.len(),
{
    if log.len() == 0 {
        None
    } else {
        let before = latest_content(log.drop_last(), x);
        let e = log.last();
        if e.task == x && (before is None || log[before->0].at <= e.at) {
            Some(log.len() - 1)
        } else {
            before
        }
    }
}

/// The place in `log` of the current content of task `x`.
pub fn current_content(log: &Vec<ContentRecord>, x: u64) -> (r: Option<usize>)
    ensures
        match r {
            Some(i) => latest_content(log@, x) == Some(i as int) && i < log.len(),
            None => latest_content(log@, x) is None,
        },
{
    let mut best: Option<usize> = None;
    let mut i: usize = 0;
    while i < log.len()
        invariant
            i <= log.len(),
            match best {
                Some(b) => b < i && latest_content(log@.take(i as int), x) == Some(b as int),
                None => latest_content(log@.take(i as int), x) is None,
            },
        decreases log.len() - i,
    {
        assert(log@.take(i + 1).drop_last() =~= log@.take(i as int));
        let e = &log[i];
        let newer = match best {
            Some(b) => log[b].at <= e.at,
            None => true,
        };
        if e.task == x && newer {
            best = Some(i);
        }
        i = i + 1;
    }
    assert(log@.take(log.len() as int) =~= log@);
    best
}

/// The content made of a body and an already parsed link; none where both
/// are absent.
pub fn content_from(body: Option<String>, link: Option<uris::Uri>) -> (r: Option<TaskContent>)
    ensures
        r is Some == (body is Some || link is Some),
        match r {
            Some(c) => text_of(c.body) == text_of(body) && c.link is Some == link is Some,
            None => true,
        },
{
    if body.is_some() || link.is_some() {
        Some(TaskContent { body, link })
    } else {
        None
    }
}

/// The content of a record: its body, and its link where that parses (a link
/// that does not parse is dropped); none where nothing is left.
pub fn content_of(rec: &ContentRecord) -> (r: Option<TaskContent>)
    ensures
        r is Some == (rec.body is Some || (rec.link is Some && uri_accepts(rec.link->0@))),
        match r {
            Some(c) => text_of(c.body) == text_of(rec.body) && c.link is Some == (rec.link is Some
                && uri_accepts(rec.link->0@)),
            None => true,
        },
{
    let link = match &rec.link {
        Some(text) => parse_uri(text.as_str()),
        None => None,
    };
    let body = match &rec.body {
        Some(b) => Some(b.clone()),
        None => None,
    };
    content_from(body, link)
}

} // verus!
