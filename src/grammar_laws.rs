//! What holds of the command grammar across inputs.
use vstd::prelude::*;
use crate::command::{
    full_word, kind_at, parse_line, select_from, shorthand, starts_with_word, CommandKind,
    CommandModel, ParseErrorModel, N_KINDS,
};
use crate::text::{ascii_lower, ascii_lower_char, is_ascii_upper, white_space};

verus! {

/// Case does not matter: two lines that are equal once lowered parse to the
/// same command or the same failure, except that an unknown command carries
/// the line as it was typed.
pub proof fn law_parse_ignores_case(a: Seq<char>, b: Seq<char>)
    requires
        ascii_lower(a) == ascii_lower(b),
    ensures
        parse_line(a) == parse_line(b) || (parse_line(a) == Err::<CommandModel, ParseErrorModel>(
            ParseErrorModel::UnknownCommand(a),
        ) && parse_line(b) == Err::<CommandModel, ParseErrorModel>(
            ParseErrorModel::UnknownCommand(b),
        )),
{
}

/// A line that starts with a word, standing alone, followed by `t`.
proof fn lemma_word_then(w: Seq<char>, t: Seq<char>)
    requires
        t.len() == 0 || white_space(t[0]),
    ensures
        starts_with_word(w + t, w),
{
    assert((w + t).take(w.len() as int) =~= w);
    if t.len() > 0 {
        assert((w + t)[w.len() as int] == t[0]);
    }
}

/// Lowering keeps white space.
proof fn lemma_lower_keeps_space(c: char)
    requires
        white_space(c),
    ensures
        ascii_lower_char(c) == c,
{
}

/// Lowering a keyword followed by `t` lowers `t` alone.
proof fn lemma_lower_word_then(w: Seq<char>, t: Seq<char>)
    requires
        forall|i: int| 0 <= i < w.len() ==> ascii_lower_char(#[trigger] w[i]) == w[i],
    ensures
        ascii_lower(w + t) == w + ascii_lower(t),
{
    assert(ascii_lower(w + t) =~= w + ascii_lower(t));
}

/// No keyword holds white space.
proof fn lemma_keyword_without_space(k: CommandKind)
    ensures
        forall|i: int| 0 <= i < full_word(k).len() ==> !white_space(#[trigger] full_word(k)[i]),
        shorthand(k) is Some ==> !white_space(shorthand(k)->0),
{
    assert forall|i: int| 0 <= i < full_word(k).len() implies !white_space(
        #[trigger] full_word(k)[i],
    ) by {
        match k {
            CommandKind::Push => {},
            CommandKind::Edit => {},
            CommandKind::Drop => {},
            CommandKind::Complete => {},
            CommandKind::Swap => {},
            CommandKind::Start => {},
            CommandKind::Todo => {},
            CommandKind::Make => {},
            CommandKind::Rot => {},
            CommandKind::NRot => {},
            CommandKind::Reprioritize => {},
            CommandKind::Quit => {},
        }
    }
}

/// A line made of a word without white space, standing alone, starts with
/// another such word exactly when the two are equal.
proof fn lemma_starts_iff(w: Seq<char>, lt: Seq<char>, v: Seq<char>)
    requires
        forall|i: int| 0 <= i < w.len() ==> !white_space(#[trigger] w[i]),
        forall|i: int| 0 <= i < v.len() ==> !white_space(#[trigger] v[i]),
        lt.len() == 0 || white_space(lt[0]),
    ensures
        starts_with_word(w + lt, v) == (v == w),
{
    let s = w + lt;
    if v == w {
        lemma_word_then(w, lt);
    } else if starts_with_word(s, v) {
        if v.len() < w.len() {
            assert(s[v.len() as int] == w[v.len() as int]);
        } else if v.len() > w.len() {
            assert(s.take(v.len() as int)[w.len() as int] == v[w.len() as int]);
            assert(s[w.len() as int] == lt[0]);
        } else {
            assert(s.take(v.len() as int) =~= w);
        }
    }
}

/// A one-letter word equals `w` exactly when `w` is that letter alone.
proof fn lemma_letter_eq(a: char, w: Seq<char>)
    ensures
        (seq![a] == w) == (w.len() == 1 && w[0] == a),
{
    if w.len() == 1 && w[0] == a {
        assert(seq![a] =~= w);
    }
    if seq![a] == w {
        assert(seq![a][0] == a);
    }
}

/// A keyword of `k` (its full word, or its letter where no command tried
/// before has the same letter), standing alone, selects `k`.
proof fn lemma_selects(k: CommandKind, w: Seq<char>, lt: Seq<char>)
    requires
        w == full_word(k) || (shorthand(k) is Some && w == seq![shorthand(k)->0] && k
            != CommandKind::Reprioritize),
        lt.len() == 0 || white_space(lt[0]),
    ensures
        select_from(w + lt, 0) == Some((k, w.len())),
{
    reveal_with_fuel(select_from, 13);
    lemma_keyword_without_space(k);
    assert forall|i: int| 0 <= i < w.len() implies !white_space(#[trigger] w[i]) by {
        if w != full_word(k) {
            assert(w[i] == shorthand(k)->0);
        }
    }
    if w != full_word(k) {
        assert(w[0] == shorthand(k)->0);
    }
    assert forall|j: int| 0 <= j < N_KINDS implies {
        &&& starts_with_word(w + lt, full_word(#[trigger] kind_at(j))) == (full_word(kind_at(j))
            == w)
        &&& shorthand(kind_at(j)) is Some ==> starts_with_word(
            w + lt,
            seq![shorthand(kind_at(j))->0],
        ) == (seq![shorthand(kind_at(j))->0] == w)
    } by {
        let kj = kind_at(j);
        lemma_keyword_without_space(kj);
        lemma_starts_iff(w, lt, full_word(kj));
        if shorthand(kj) is Some {
            let c = seq![shorthand(kj)->0];
            assert forall|i: int| 0 <= i < c.len() implies !white_space(#[trigger] c[i]) by {
                assert(c[i] == shorthand(kj)->0);
            }
            lemma_starts_iff(w, lt, c);
        }
    }
    assert(starts_with_word(w + lt, full_word(kind_at(0))) == (full_word(kind_at(0)) == w));
    lemma_letter_eq(shorthand(kind_at(0))->0, w);
    assert(shorthand(kind_at(0)) is Some ==> starts_with_word(w + lt, seq![shorthand(kind_at(0))->0]) == (w.len() == 1 && w[0] == shorthand(kind_at(0))->0));
    assert(starts_with_word(w + lt, full_word(kind_at(1))) == (full_word(kind_at(1)) == w));
    lemma_letter_eq(shorthand(kind_at(1))->0, w);
    assert(shorthand(kind_at(1)) is Some ==> starts_with_word(w + lt, seq![shorthand(kind_at(1))->0]) == (w.len() == 1 && w[0] == shorthand(kind_at(1))->0));
    assert(starts_with_word(w + lt, full_word(kind_at(2))) == (full_word(kind_at(2)) == w));
    lemma_letter_eq(shorthand(kind_at(2))->0, w);
    assert(shorthand(kind_at(2)) is Some ==> starts_with_word(w + lt, seq![shorthand(kind_at(2))->0]) == (w.len() == 1 && w[0] == shorthand(kind_at(2))->0));
    assert(starts_with_word(w + lt, full_word(kind_at(3))) == (full_word(kind_at(3)) == w));
    lemma_letter_eq(shorthand(kind_at(3))->0, w);
    assert(shorthand(kind_at(3)) is Some ==> starts_with_word(w + lt, seq![shorthand(kind_at(3))->0]) == (w.len() == 1 && w[0] == shorthand(kind_at(3))->0));
    assert(starts_with_word(w + lt, full_word(kind_at(4))) == (full_word(kind_at(4)) == w));
    lemma_letter_eq(shorthand(kind_at(4))->0, w);
    assert(shorthand(kind_at(4)) is Some ==> starts_with_word(w + lt, seq![shorthand(kind_at(4))->0]) == (w.len() == 1 && w[0] == shorthand(kind_at(4))->0));
    assert(starts_with_word(w + lt, full_word(kind_at(5))) == (full_word(kind_at(5)) == w));
    lemma_letter_eq(shorthand(kind_at(5))->0, w);
    assert(shorthand(kind_at(5)) is Some ==> starts_with_word(w + lt, seq![shorthand(kind_at(5))->0]) == (w.len() == 1 && w[0] == shorthand(kind_at(5))->0));
    assert(starts_with_word(w + lt, full_word(kind_at(6))) == (full_word(kind_at(6)) == w));
    lemma_letter_eq(shorthand(kind_at(6))->0, w);
    assert(shorthand(kind_at(6)) is Some ==> starts_with_word(w + lt, seq![shorthand(kind_at(6))->0]) == (w.len() == 1 && w[0] == shorthand(kind_at(6))->0));
    assert(starts_with_word(w + lt, full_word(kind_at(7))) == (full_word(kind_at(7)) == w));
    lemma_letter_eq(shorthand(kind_at(7))->0, w);
    assert(shorthand(kind_at(7)) is Some ==> starts_with_word(w + lt, seq![shorthand(kind_at(7))->0]) == (w.len() == 1 && w[0] == shorthand(kind_at(7))->0));
    assert(starts_with_word(w + lt, full_word(kind_at(8))) == (full_word(kind_at(8)) == w));
    lemma_letter_eq(shorthand(kind_at(8))->0, w);
    assert(shorthand(kind_at(8)) is Some ==> starts_with_word(w + lt, seq![shorthand(kind_at(8))->0]) == (w.len() == 1 && w[0] == shorthand(kind_at(8))->0));
    assert(starts_with_word(w + lt, full_word(kind_at(9))) == (full_word(kind_at(9)) == w));
    lemma_letter_eq(shorthand(kind_at(9))->0, w);
    assert(shorthand(kind_at(9)) is Some ==> starts_with_word(w + lt, seq![shorthand(kind_at(9))->0]) == (w.len() == 1 && w[0] == shorthand(kind_at(9))->0));
    assert(starts_with_word(w + lt, full_word(kind_at(10))) == (full_word(kind_at(10)) == w));
    lemma_letter_eq(shorthand(kind_at(10))->0, w);
    assert(shorthand(kind_at(10)) is Some ==> starts_with_word(w + lt, seq![shorthand(kind_at(10))->0]) == (w.len() == 1 && w[0] == shorthand(kind_at(10))->0));
    assert(starts_with_word(w + lt, full_word(kind_at(11))) == (full_word(kind_at(11)) == w));
    lemma_letter_eq(shorthand(kind_at(11))->0, w);
    assert(shorthand(kind_at(11)) is Some ==> starts_with_word(w + lt, seq![shorthand(kind_at(11))->0]) == (w.len() == 1 && w[0] == shorthand(kind_at(11))->0));
    assert(kind_at(0) == CommandKind::Push);
    assert(kind_at(1) == CommandKind::Edit);
    assert(kind_at(2) == CommandKind::Drop);
    assert(kind_at(3) == CommandKind::Complete);
    assert(kind_at(4) == CommandKind::Swap);
    assert(kind_at(5) == CommandKind::Start);
    assert(kind_at(6) == CommandKind::Todo);
    assert(kind_at(7) == CommandKind::Make);
    assert(kind_at(8) == CommandKind::Rot);
    assert(kind_at(9) == CommandKind::NRot);
    assert(kind_at(10) == CommandKind::Reprioritize);
    assert(kind_at(11) == CommandKind::Quit);
}

/// A keyword whose characters lowering keeps.
proof fn lemma_lower_keyword(w: Seq<char>, t: Seq<char>)
    requires
        forall|i: int| 0 <= i < w.len() ==> !is_ascii_upper(#[trigger] w[i]),
    ensures
        ascii_lower(w + t) == w + ascii_lower(t),
{
    lemma_lower_word_then(w, t);
}

/// The one-letter keyword of a command and its full word parse alike,
/// whatever follows them, in any case (the letter `p` of Reprioritize
/// excepted: it is Push's, which is tried first).
pub proof fn law_shorthand_matches_full_word(k: CommandKind, t: Seq<char>)
    requires
        shorthand(k) is Some,
        k != CommandKind::Reprioritize,
        t.len() == 0 || white_space(t[0]),
    ensures
        parse_line(full_word(k) + t) == parse_line(seq![shorthand(k)->0] + t),
{
    let lt = ascii_lower(t);
    if t.len() > 0 {
        lemma_lower_keeps_space(t[0]);
        assert(lt[0] == t[0]);
    }
    let w = full_word(k);
    let c = seq![shorthand(k)->0];
    assert(forall|i: int| 0 <= i < w.len() ==> !is_ascii_upper(#[trigger] w[i]));
    assert(forall|i: int| 0 <= i < c.len() ==> !is_ascii_upper(#[trigger] c[i]));
    lemma_lower_keyword(w, t);
    lemma_lower_keyword(c, t);
    assert((w + lt).subrange(w.len() as int, (w + lt).len() as int) =~= lt);
    assert((c + lt).subrange(1, (c + lt).len() as int) =~= lt);
    lemma_selects(k, w, lt);
    lemma_selects(k, c, lt);
}

} // verus!
