//! The command grammar: one line of text becomes one typed command, or a
//! typed failure.
use vstd::prelude::*;
use crate::text::{alphanumeric, ascii_lower, digit_value, is_digit, white_space};

verus! {

/// How a command names a task: by its permanent id (`tsk-<digits>`), or by
/// its offset from the top of the ordering (`<digits>`, at most 255).
#[derive(Clone, Copy, Debug, PartialEq, Eq, Structural)]
pub enum TaskIdentifier {
    Task(u64),
    Stack(u8),
}

/// A command of the home view.
#[derive(Debug)]
pub enum HomeCommand {
    Push(String),
    Edit(Option<TaskIdentifier>),
    Drop(Option<TaskIdentifier>),
    Complete(Option<TaskIdentifier>),
    Quit,
    Swap,
    Start,
    Todo,
    Reprioritize(TaskIdentifier),
    Rot,
    NRot,
    Make(String),
}

/// Why a line is not a command.
#[derive(Debug)]
pub enum CommandParseError {
    /// No keyword matches; holds the line as it was given.
    UnknownCommand(String),
    /// The keyword matched but what follows it does not fit; holds that text.
    InvalidArgument(String),
    /// Reserved for an inconsistency inside the parser.
    Unknown,
}

/// A command as a mathematical value.
pub ghost enum CommandModel {
    Push(Seq<char>),
    Edit(Option<TaskIdentifier>),
    Drop(Option<TaskIdentifier>),
    Complete(Option<TaskIdentifier>),
    Quit,
    Swap,
    Start,
    Todo,
    Reprioritize(TaskIdentifier),
    Rot,
    NRot,
    Make(Seq<char>),
}

/// A parse failure as a mathematical value.
pub ghost enum ParseErrorModel {
    UnknownCommand(Seq<char>),
    InvalidArgument(Seq<char>),
    Unknown,
}

impl View for HomeCommand {
    type V = CommandModel;

    open spec fn view(&self) -> CommandModel {
        match self {
            HomeCommand::Push(t) => CommandModel::Push(t@),
            HomeCommand::Edit(i) => CommandModel::Edit(*i),
            HomeCommand::Drop(i) => CommandModel::Drop(*i),
            HomeCommand::Complete(i) => CommandModel::Complete(*i),
            HomeCommand::Quit => CommandModel::Quit,
            HomeCommand::Swap => CommandModel::Swap,
            HomeCommand::Start => CommandModel::Start,
            HomeCommand::Todo => CommandModel::Todo,
            HomeCommand::Reprioritize(i) => CommandModel::Reprioritize(*i),
            HomeCommand::Rot => CommandModel::Rot,
            HomeCommand::NRot => CommandModel::NRot,
            HomeCommand::Make(n) => CommandModel::Make(n@),
        }
    }
}

impl View for CommandParseError {
    type V = ParseErrorModel;

    open spec fn view(&self) -> ParseErrorModel {
        match self {
            CommandParseError::UnknownCommand(s) => ParseErrorModel::UnknownCommand(s@),
            CommandParseError::InvalidArgument(s) => ParseErrorModel::InvalidArgument(s@),
            CommandParseError::Unknown => ParseErrorModel::Unknown,
        }
    }
}

/// The outcome of a parse as a mathematical value.
pub open spec fn outcome(r: Result<HomeCommand, CommandParseError>) -> Result<
    CommandModel,
    ParseErrorModel,
> {
    match r {
        Ok(c) => Ok(c@),
        Err(e) => Err(e@),
    }
}

/// The commands, in the order in which their keywords are tried.
#[derive(Clone, Copy, Debug, PartialEq, Eq, Structural)]
pub enum CommandKind {
    Push,
    Edit,
    Drop,
    Complete,
    Swap,
    Start,
    Todo,
    Make,
    Rot,
    NRot,
    Reprioritize,
    Quit,
}

/// What a command takes after its keyword.
#[derive(Clone, Copy, Debug, PartialEq, Eq, Structural)]
pub enum ArgumentShape {
    /// Nothing but white space.
    Nothing,
    /// The rest of the line, starting with an alphanumeric character.
    Title,
    /// One run of alphanumeric characters.
    Name,
    /// An optional task identifier, absolute or relative.
    OptionalIdentifier,
    /// An absolute task identifier.
    AbsoluteIdentifier,
}

/// How many commands there are.
pub const N_KINDS: usize = 12;

/// The command tried in the given place.
pub open spec fn kind_at(i: int) -> CommandKind {
    if i == 0 {
        CommandKind::Push
    } else if i == 1 {
        CommandKind::Edit
    } else if i == 2 {
        CommandKind::Drop
    } else if i == 3 {
        CommandKind::Complete
    } else if i == 4 {
        CommandKind::Swap
    } else if i == 5 {
        CommandKind::Start
    } else if i == 6 {
        CommandKind::Todo
    } else if i == 7 {
        CommandKind::Make
    } else if i == 8 {
        CommandKind::Rot
    } else if i == 9 {
        CommandKind::NRot
    } else if i == 10 {
        CommandKind::Reprioritize
    } else {
        CommandKind::Quit
    }
}

/// The full keyword of a command.
pub open spec fn full_word(k: CommandKind) -> Seq<char> {
    match k {
        CommandKind::Push => seq!['p', 'u', 's', 'h'],
        CommandKind::Edit => seq!['e', 'd', 'i', 't'],
        CommandKind::Drop => seq!['d', 'r', 'o', 'p'],
        CommandKind::Complete => seq!['c', 'o', 'm', 'p', 'l', 'e', 't', 'e'],
        CommandKind::Swap => seq!['s', 'w', 'a', 'p'],
        CommandKind::Start => seq!['s', 't', 'a', 'r', 't'],
        CommandKind::Todo => seq!['t', 'o', 'd', 'o'],
        CommandKind::Make => seq!['m', 'a', 'k', 'e'],
        CommandKind::Rot => seq!['r', 'o', 't'],
        CommandKind::NRot => seq!['-', 'r', 'o', 't'],
        CommandKind::Reprioritize => seq!['r', 'e', 'p'],
        CommandKind::Quit => seq!['q', 'u', 'i', 't'],
    }
}

/// The one-letter keyword of a command, where it has one.
pub open spec fn shorthand(k: CommandKind) -> Option<char> {
    match k {
        CommandKind::Push => Some('p'),
        CommandKind::Edit => Some('e'),
        CommandKind::Drop => Some('d'),
        CommandKind::Complete => Some('c'),
        CommandKind::Start => Some('s'),
        CommandKind::Todo => Some('t'),
        CommandKind::Make => Some('m'),
        CommandKind::NRot => Some('-'),
        CommandKind::Reprioritize => Some('p'),
        _ => None,
    }
}

/// What a command takes after its keyword.
pub open spec fn shape(k: CommandKind) -> ArgumentShape {
    match k {
        CommandKind::Push => ArgumentShape::Title,
        CommandKind::Make => ArgumentShape::Name,
        CommandKind::Edit => ArgumentShape::OptionalIdentifier,
        CommandKind::Drop => ArgumentShape::OptionalIdentifier,
        CommandKind::Complete => ArgumentShape::OptionalIdentifier,
        CommandKind::Reprioritize => ArgumentShape::AbsoluteIdentifier,
        _ => ArgumentShape::Nothing,
    }
}

/// Whether the line starts with the word `w` standing alone: followed by
/// white space or by the end of the line.
pub open spec fn starts_with_word(s: Seq<char>, w: Seq<char>) -> bool {
    &&& w.len() <= s.len()
    &&& s.take(w.len() as int) == w
    &&& (s.len() == w.len() || white_space(s[w.len() as int]))
}

/// The length of the keyword of `k` that the line starts with: the full word
/// is preferred to the one-letter form.
pub open spec fn keyword_len(s: Seq<char>, k: CommandKind) -> Option<nat> {
    if starts_with_word(s, full_word(k)) {
        Some(full_word(k).len())
    } else if shorthand(k) is Some && starts_with_word(s, seq![shorthand(k)->0]) {
        Some(1)
    } else {
        None
    }
}

/// The first command, from place `i` on, whose keyword starts the line, with
/// the keyword's length.
pub open spec fn select_from(s: Seq<char>, i: int) -> Option<(CommandKind, nat)>
    decreases N_KINDS - i,
{
    if i < 0 || i >= N_KINDS {
        None
    } else {
        match keyword_len(s, kind_at(i)) {
            Some(n) => Some((kind_at(i), n)),
            None => select_from(s, i + 1),
        }
    }
}

/// The end of the run of white space that starts at `i`.
pub open spec fn white_end(s: Seq<char>, i: int) -> int
    decreases s.len() - i,
{
    if 0 <= i < s.len() && white_space(s[i]) {
        white_end(s, i + 1)
    } else {
        i
    }
}

/// The end of the run of digits that starts at `i`.
pub open spec fn digit_end(s: Seq<char>, i: int) -> int
    decreases s.len() - i,
{
    if 0 <= i < s.len() && is_digit(s[i]) {
        digit_end(s, i + 1)
    } else {
        i
    }
}

/// The end of the run of alphanumeric characters that starts at `i`.
pub open spec fn alnum_end(s: Seq<char>, i: int) -> int
    decreases s.len() - i,
{
    if 0 <= i < s.len() && alphanumeric(s[i]) {
        alnum_end(s, i + 1)
    } else {
        i
    }
}

/// The decimal value of the digits in `s[a..d]`.
pub open spec fn number(s: Seq<char>, a: int, d: int) -> nat
    decreases d - a,
{
    if d <= a {
        0
    } else {
        number(s, a, d - 1) * 10 + digit_value(s[d - 1])
    }
}

/// The prefix of an absolute task identifier.
pub open spec fn task_prefix() -> Seq<char> {
    seq!['t', 's', 'k', '-']
}

/// An absolute identifier `tsk-<digits>` at `a`, with the position after it.
pub open spec fn absolute_at(s: Seq<char>, a: int) -> Option<(TaskIdentifier, int)> {
    if 0 <= a && a + 4 <= s.len() && s.subrange(a, a + 4) == task_prefix() {
        let d = digit_end(s, a + 4);
        if d > a + 4 && number(s, a + 4, d) <= u64::MAX {
            Some((TaskIdentifier::Task(number(s, a + 4, d) as u64), d))
        } else {
            None
        }
    } else {
        None
    }
}

/// A relative identifier `<digits>` at `a`, else an absolute one, with the
/// position after it.
pub open spec fn identifier_at(s: Seq<char>, a: int) -> Option<(TaskIdentifier, int)> {
    let d = digit_end(s, a);
    if d > a {
        if number(s, a, d) <= u8::MAX {
            Some((TaskIdentifier::Stack(number(s, a, d) as u8), d))
        } else {
            None
        }
    } else {
        absolute_at(s, a)
    }
}

/// Whether only white space follows position `i`.
pub open spec fn blank_from(s: Seq<char>, i: int) -> bool {
    white_end(s, i) == s.len()
}

/// The command that takes no argument.
pub open spec fn bare_command(k: CommandKind) -> CommandModel {
    match k {
        CommandKind::Swap => CommandModel::Swap,
        CommandKind::Start => CommandModel::Start,
        CommandKind::Todo => CommandModel::Todo,
        CommandKind::Rot => CommandModel::Rot,
        CommandKind::NRot => CommandModel::NRot,
        _ => CommandModel::Quit,
    }
}

/// The command that takes an optional identifier.
pub open spec fn targeted_command(k: CommandKind, id: Option<TaskIdentifier>) -> CommandModel {
    match k {
        CommandKind::Edit => CommandModel::Edit(id),
        CommandKind::Drop => CommandModel::Drop(id),
        _ => CommandModel::Complete(id),
    }
}

/// What the text `t` that follows the keyword of `k` makes of the line.
pub open spec fn argument(k: CommandKind, t: Seq<char>) -> Result<CommandModel, ParseErrorModel> {
    let a = white_end(t, 0);
    let rest = t.subrange(a, t.len() as int);
    let bad = Err(ParseErrorModel::InvalidArgument(rest));
    match shape(k) {
        ArgumentShape::Nothing => if a == t.len() {
            Ok(bare_command(k))
        } else {
            bad
        },
        ArgumentShape::Title => if a < t.len() && alphanumeric(t[a]) {
            Ok(CommandModel::Push(rest))
        } else {
            bad
        },
        ArgumentShape::Name => {
            let e = alnum_end(t, a);
            if e > a && blank_from(t, e) {
                Ok(CommandModel::Make(t.subrange(a, e)))
            } else {
                bad
            }
        },
        ArgumentShape::OptionalIdentifier => if a == t.len() {
            Ok(targeted_command(k, None))
        } else {
            match identifier_at(t, a) {
                Some((id, e)) => if blank_from(t, e) {
                    Ok(targeted_command(k, Some(id)))
                } else {
                    bad
                },
                None => bad,
            }
        },
        ArgumentShape::AbsoluteIdentifier => match absolute_at(t, a) {
            Some((id, e)) => if blank_from(t, e) {
                Ok(CommandModel::Reprioritize(id))
            } else {
                bad
            },
            None => bad,
        },
    }
}

/// What a line of input means: it is lowered to ASCII lower case, the first
/// command whose keyword starts it is chosen, and the rest must fit that
/// command's argument.
pub open spec fn parse_line(input: Seq<char>) -> Result<CommandModel, ParseErrorModel> {
    let s = ascii_lower(input);
    match select_from(s, 0) {
        None => Err(ParseErrorModel::UnknownCommand(input)),
        Some((k, p)) => argument(k, s.subrange(p as int, s.len() as int)),
    }
}

} // verus!
