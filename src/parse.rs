//! The executable parser of the command grammar.
use vstd::prelude::*;
use crate::command::{
    absolute_at, alnum_end, argument, digit_end, full_word, identifier_at, keyword_len, kind_at,
    number, outcome, parse_line, select_from, shape, shorthand, starts_with_word, white_end,
    ArgumentShape, CommandKind, CommandModel, CommandParseError, HomeCommand, ParseErrorModel,
    TaskIdentifier, N_KINDS,
};
use crate::text::{
    ascii_lower, chars_of, digit_value, is_alphanumeric, is_ascii_digit, is_digit, is_white_space,
    lowercase,
};

verus! {

impl CommandKind {
    /// The command tried in place `i`.
    pub fn at(i: usize) -> (k: CommandKind)
        requires
            i < N_KINDS,
        ensures
            k == kind_at(i as int),
    {
        match i {
            0 => CommandKind::Push,
            1 => CommandKind::Edit,
            2 => CommandKind::Drop,
            3 => CommandKind::Complete,
            4 => CommandKind::Swap,
            5 => CommandKind::Start,
            6 => CommandKind::Todo,
            7 => CommandKind::Make,
            8 => CommandKind::Rot,
            9 => CommandKind::NRot,
            10 => CommandKind::Reprioritize,
            _ => CommandKind::Quit,
        }
    }

    /// The full keyword, as characters.
    pub fn word(self) -> (r: Vec<char>)
        ensures
            r@ == full_word(self),
    {
        match self {
            CommandKind::Push => vec!['p', 'u', 's', 'h'],
            CommandKind::Edit => vec!['e', 'd', 'i', 't'],
            CommandKind::Drop => vec!['d', 'r', 'o', 'p'],
            CommandKind::Complete => vec!['c', 'o', 'm', 'p', 'l', 'e', 't', 'e'],
            CommandKind::Swap => vec!['s', 'w', 'a', 'p'],
            CommandKind::Start => vec!['s', 't', 'a', 'r', 't'],
            CommandKind::Todo => vec!['t', 'o', 'd', 'o'],
            CommandKind::Make => vec!['m', 'a', 'k', 'e'],
            CommandKind::Rot => vec!['r', 'o', 't'],
            CommandKind::NRot => vec!['-', 'r', 'o', 't'],
            CommandKind::Reprioritize => vec!['r', 'e', 'p'],
            CommandKind::Quit => vec!['q', 'u', 'i', 't'],
        }
    }

    /// The one-letter keyword, where there is one.
    pub fn letter(self) -> (r: Option<char>)
        ensures
            r == shorthand(self),
    {
        match self {
            CommandKind::Push => Some('p'),
            CommandKind::Edit => Some('e'),
            CommandKind::Drop => Some('d'),
            CommandKind::Complete => Some('c'),
            CommandKind::Start => Some('s'),
            CommandKind::Todo => Some('t'),
            CommandKind::Make => Some('m'),
            CommandKind::NRot => Some('-'),
            CommandKind::Reprioritize => Some('p'),
            _ => None,
        }
    }

    /// What the command takes after its keyword.
    pub fn argument_shape(self) -> (r: ArgumentShape)
        ensures
            r == shape(self),
    {
        match self {
            CommandKind::Push => ArgumentShape::Title,
            CommandKind::Make => ArgumentShape::Name,
            CommandKind::Edit => ArgumentShape::OptionalIdentifier,
            CommandKind::Drop => ArgumentShape::OptionalIdentifier,
            CommandKind::Complete => ArgumentShape::OptionalIdentifier,
            CommandKind::Reprioritize => ArgumentShape::AbsoluteIdentifier,
            _ => ArgumentShape::Nothing,
        }
    }
}

/// Whether `w` stands in `s` at position `a`.
fn occurs_at(s: &Vec<char>, a: usize, w: &Vec<char>) -> (r: bool)
    requires
        a <= s.len(),
    ensures
        r == (a + w.len() <= s.len() && s@.subrange(a as int, a + w.len()) == w@),
{
    if w.len() > s.len() - a {
        return false;
    }
    let mut i: usize = 0;
    while i < w.len()
        invariant
            i <= w.len(),
            a + w.len() <= s.len(),
            forall|j: int| 0 <= j < i ==> s@[a + j] == w@[j],
        decreases w.len() - i,
    {
        if s[a + i] != w[i] {
            assert(s@.subrange(a as int, a + w.len())[i as int] != w@[i as int]);
            return false;
        }
        i = i + 1;
    }
    assert(s@.subrange(a as int, a + w.len()) =~= w@);
    true
}

/// Whether the line starts with `w` standing alone.
fn starts_with(s: &Vec<char>, w: &Vec<char>) -> (r: bool)
    ensures
        r == starts_with_word(s@, w@),
{
    if !occurs_at(s, 0, w) {
        return false;
    }
    s.len() == w.len() || is_white_space(s[w.len()])
}

/// The length of the keyword of `k` that starts the line.
fn keyword_length(s: &Vec<char>, k: CommandKind) -> (r: Option<usize>)
    ensures
        match r {
            Some(n) => keyword_len(s@, k) == Some(n as nat),
            None => keyword_len(s@, k) is None,
        },
{
    let w = k.word();
    if starts_with(s, &w) {
        return Some(w.len());
    }
    match k.letter() {
        Some(c) => {
            let short = vec![c];
            assert(short@ =~= seq![c]);
            if starts_with(s, &short) {
                Some(1)
            } else {
                None
            }
        },
        None => None,
    }
}

/// The end of the run of white space at `i`.
fn skip_white(s: &Vec<char>, i: usize) -> (r: usize)
    requires
        i <= s.len(),
    ensures
        r as int == white_end(s@, i as int),
        i <= r <= s.len(),
{
    let mut j = i;
    while j < s.len() && is_white_space(s[j])
        invariant
            i <= j <= s.len(),
            white_end(s@, j as int) == white_end(s@, i as int),
        decreases s.len() - j,
    {
        j = j + 1;
    }
    j
}

/// The end of the run of digits at `i`.
fn skip_digits(s: &Vec<char>, i: usize) -> (r: usize)
    requires
        i <= s.len(),
    ensures
        r as int == digit_end(s@, i as int),
        i <= r <= s.len(),
        forall|j: int| i <= j < r ==> is_digit(s@[j]),
{
    let mut j = i;
    while j < s.len() && is_ascii_digit(s[j])
        invariant
            i <= j <= s.len(),
            digit_end(s@, j as int) == digit_end(s@, i as int),
            forall|m: int| i <= m < j ==> is_digit(s@[m]),
        decreases s.len() - j,
    {
        j = j + 1;
    }
    j
}

/// The end of the run of alphanumeric characters at `i`.
fn skip_alphanumeric(s: &Vec<char>, i: usize) -> (r: usize)
    requires
        i <= s.len(),
    ensures
        r as int == alnum_end(s@, i as int),
        i <= r <= s.len(),
{
    let mut j = i;
    while j < s.len() && is_alphanumeric(s[j])
        invariant
            i <= j <= s.len(),
            alnum_end(s@, j as int) == alnum_end(s@, i as int),
        decreases s.len() - j,
    {
        j = j + 1;
    }
    j
}

/// A run of digits is worth at least as much as any of its prefixes.
proof fn lemma_number_grows(s: Seq<char>, a: int, j: int, k: int)
    requires
        a <= j <= k,
    ensures
        number(s, a, j) <= number(s, a, k),
    decreases k - j,
{
    if j < k {
        lemma_number_grows(s, a, j, k - 1);
    }
}

/// The value of the digits in `s[a..d]`, where it is at most `limit`.
fn read_number(s: &Vec<char>, a: usize, d: usize, limit: u64) -> (r: Option<u64>)
    requires
        a <= d <= s.len(),
        forall|j: int| a <= j < d ==> is_digit(s@[j]),
    ensures
        match r {
            Some(v) => v == number(s@, a as int, d as int) && v <= limit,
            None => number(s@, a as int, d as int) > limit,
        },
{
    let mut acc: u64 = 0;
    let mut i = a;
    while i < d
        invariant
            a <= i <= d <= s.len(),
            forall|j: int| a <= j < d ==> is_digit(s@[j]),
            acc == number(s@, a as int, i as int),
            acc <= limit,
        decreases d - i,
    {
        let c = s[i];
        assert(is_digit(s@[i as int]));
        let dv = ((c as u32) - ('0' as u32)) as u64;
        assert(dv == digit_value(c));
        let next: u128 = acc as u128 * 10 + dv as u128;
        if next > limit as u128 {
            proof {
                lemma_number_grows(s@, a as int, i + 1, d as int);
            }
            return None;
        }
        acc = next as u64;
        i = i + 1;
    }
    Some(acc)
}

/// An absolute identifier at `a`.
fn read_absolute(s: &Vec<char>, a: usize) -> (r: Option<(TaskIdentifier, usize)>)
    requires
        a <= s.len(),
    ensures
        match r {
            Some((id, e)) => absolute_at(s@, a as int) == Some((id, e as int)) && e <= s.len(),
            None => absolute_at(s@, a as int) is None,
        },
{
    let prefix = vec!['t', 's', 'k', '-'];
    if !occurs_at(s, a, &prefix) {
        return None;
    }
    let d = skip_digits(s, a + 4);
    if d == a + 4 {
        return None;
    }
    match read_number(s, a + 4, d, u64::MAX) {
        Some(v) => Some((TaskIdentifier::Task(v), d)),
        None => None,
    }
}

/// A relative identifier at `a`, else an absolute one.
fn read_identifier(s: &Vec<char>, a: usize) -> (r: Option<(TaskIdentifier, usize)>)
    requires
        a <= s.len(),
    ensures
        match r {
            Some((id, e)) => identifier_at(s@, a as int) == Some((id, e as int)) && e <= s.len(),
            None => identifier_at(s@, a as int) is None,
        },
{
    let d = skip_digits(s, a);
    if d > a {
        match read_number(s, a, d, 255) {
            Some(v) => Some((TaskIdentifier::Stack(v as u8), d)),
            None => None,
        }
    } else {
        read_absolute(s, a)
    }
}

/// The text of `line` from position `a` on.
fn tail_text(line: &str, a: usize) -> (r: String)
    requires
        a <= line@.len(),
    ensures
        r@ == line@.subrange(a as int, line@.len() as int),
{
    let n = line.unicode_len();
    line.substring_char(a, n).to_owned()
}

/// What the text that follows the keyword of `k` makes of the line; `line`
/// holds the same characters as `s`.
fn read_argument(k: CommandKind, s: &Vec<char>, line: &str) -> (r: Result<
    HomeCommand,
    CommandParseError,
>)
    requires
        line@ == s@,
    ensures
        outcome(r) == argument(k, s@),
{
    let a = skip_white(s, 0);
    let n = s.len();
    match k.argument_shape() {
        ArgumentShape::Nothing => {
            if a == n {
                match k {
                    CommandKind::Swap => Ok(HomeCommand::Swap),
                    CommandKind::Start => Ok(HomeCommand::Start),
                    CommandKind::Todo => Ok(HomeCommand::Todo),
                    CommandKind::Rot => Ok(HomeCommand::Rot),
                    CommandKind::NRot => Ok(HomeCommand::NRot),
                    _ => Ok(HomeCommand::Quit),
                }
            } else {
                Err(CommandParseError::InvalidArgument(tail_text(line, a)))
            }
        },
        ArgumentShape::Title => {
            if a < n && is_alphanumeric(s[a]) {
                Ok(HomeCommand::Push(tail_text(line, a)))
            } else {
                Err(CommandParseError::InvalidArgument(tail_text(line, a)))
            }
        },
        ArgumentShape::Name => {
            let e = skip_alphanumeric(s, a);
            if e > a && skip_white(s, e) == n {
                let name = line.substring_char(a, e).to_owned();
                Ok(HomeCommand::Make(name))
            } else {
                Err(CommandParseError::InvalidArgument(tail_text(line, a)))
            }
        },
        ArgumentShape::OptionalIdentifier => {
            let target = if a == n {
                Some(None)
            } else {
                match read_identifier(s, a) {
                    Some((id, e)) => if skip_white(s, e) == n {
                        Some(Some(id))
                    } else {
                        None
                    },
                    None => None,
                }
            };
            match target {
                Some(t) => match k {
                    CommandKind::Edit => Ok(HomeCommand::Edit(t)),
                    CommandKind::Drop => Ok(HomeCommand::Drop(t)),
                    _ => Ok(HomeCommand::Complete(t)),
                },
                None => Err(CommandParseError::InvalidArgument(tail_text(line, a))),
            }
        },
        ArgumentShape::AbsoluteIdentifier => {
            match read_absolute(s, a) {
                Some((id, e)) => if skip_white(s, e) == n {
                    Ok(HomeCommand::Reprioritize(id))
                } else {
                    Err(CommandParseError::InvalidArgument(tail_text(line, a)))
                },
                None => Err(CommandParseError::InvalidArgument(tail_text(line, a))),
            }
        },
    }
}

/// Parses one line of input into a command of the home view.
pub fn parse_command(input: &str) -> (r: Result<HomeCommand, CommandParseError>)
    ensures
        outcome(r) == parse_line(input@),
{
    let lowered = lowercase(input);
    let line = lowered.as_str();
    let s = chars_of(line);
    let mut i: usize = 0;
    while i < N_KINDS
        invariant
            i <= N_KINDS,
            s@ == ascii_lower(input@),
            line@ == s@,
            select_from(s@, i as int) == select_from(s@, 0),
        decreases N_KINDS - i,
    {
        let k = CommandKind::at(i);
        match keyword_length(&s, k) {
            Some(p) => {
                let tail = line.substring_char(p, s.len());
                let t = chars_of(tail);
                return read_argument(k, &t, tail);
            },
            None => {},
        }
        i = i + 1;
    }
    Err(CommandParseError::UnknownCommand(input.to_owned()))
}

/// Parses one line of input into a command of the home view; `None` where
/// the line is not a command.
pub fn parse_home_command(input: &str) -> (r: Option<HomeCommand>)
    ensures
        match r {
            Some(c) => parse_line(input@) == Ok::<CommandModel, ParseErrorModel>(c@),
            None => parse_line(input@) is Err,
        },
{
    match parse_command(input) {
        Ok(c) => Some(c),
        Err(_) => None,
    }
}

} // verus!
