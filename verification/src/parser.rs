//! The parser: from program text to a program.
//!
//! Spaces mean nothing anywhere and are removed first. What is left is cut
//! into lines at every newline, and each line is read from left to right as a
//! run of instructions, which a `#` comment may end early.

use crate::error::Error;
use crate::instruction::{Code, Instruction, Op};
use crate::natural::{big_add_assign, big_from_usize, big_mul_assign, big_value};
use vstd::prelude::*;

verus! {

/// The instruction that a lone character stands for, if it stands for one.
pub open spec fn single_op(c: char) -> Option<Op> {
    if c == 'r' {
        Some(Op::Read)
    } else if c == 'w' {
        Some(Op::Write)
    } else if c == '!' {
        Some(Op::Halt)
    } else if c == '.' {
        Some(Op::Sleep)
    } else if c == '$' {
        Some(Op::GlobalAdd)
    } else if c == '~' {
        Some(Op::GlobalSubtract)
    } else {
        None
    }
}

/// Whether a character opens an instruction that carries a number.
pub open spec fn is_sigil(c: char) -> bool {
    c == '=' || c == '+' || c == '*' || c == '-' || c == ':'
}

/// The instruction that a sigil and its number stand for.
pub open spec fn valued_op(c: char, n: nat) -> Op
    recommends
        is_sigil(c),
{
    if c == '=' {
        Op::Load(n)
    } else if c == '+' {
        Op::Spawn(n)
    } else if c == '*' {
        Op::SpawnMulti(n)
    } else if c == '-' {
        Op::Kill(n)
    } else {
        Op::Jump(n)
    }
}

/// Whether a character is one of the ten decimal digits.
pub open spec fn is_digit(c: char) -> bool {
    '0' <= c <= '9'
}

/// The number that a decimal digit stands for.
pub open spec fn digit_value(c: char) -> nat
    recommends
        is_digit(c),
{
    (c as int - 48) as nat
}

/// The number that a run of decimal digits stands for; leading zeros count
/// for nothing, and the empty run is zero.
pub open spec fn digits_value(s: Seq<char>) -> nat
    decreases s.len(),
{
    if s.len() == 0 {
        0
    } else {
        digits_value(s.drop_last()) * 10 + digit_value(s.last())
    }
}

/// Where the longest run of digits that starts at `from` ends: the first
/// position at or after `from` that holds no digit.
pub open spec fn digits_end(s: Seq<char>, from: int) -> int
    decreases s.len() - from,
{
    if 0 <= from < s.len() && is_digit(s[from]) {
        digits_end(s, from + 1)
    } else {
        from
    }
}

/// An instruction in front of what follows it, where what follows parsed.
pub open spec fn followed(op: Op, rest: Option<Seq<Op>>) -> Option<Seq<Op>> {
    match rest {
        Some(ops) => Some(seq![op] + ops),
        None => None,
    }
}

/// The instructions of a line from position `pos` on, or nothing where the
/// rest of the line is malformed: it holds a character that starts neither an
/// instruction nor a comment, or a sigil that no digit follows.
pub open spec fn ops_from(line: Seq<char>, pos: int) -> Option<Seq<Op>>
    decreases line.len() - pos,
    via ops_from_decreases
{
    if pos < 0 || pos >= line.len() {
        Some(Seq::empty())
    } else if single_op(line[pos]) is Some {
        followed(single_op(line[pos])->0, ops_from(line, pos + 1))
    } else if is_sigil(line[pos]) {
        let end = digits_end(line, pos + 1);
        if end == pos + 1 {
            None
        } else {
            followed(
                valued_op(line[pos], digits_value(line.subrange(pos + 1, end))),
                ops_from(line, end),
            )
        }
    } else if line[pos] == '#' {
        Some(Seq::empty())
    } else {
        None
    }
}

/// A run of digits ends at or behind its start, and within the text.
pub proof fn lemma_digits_end_bounds(s: Seq<char>, from: int)
    ensures
        from <= digits_end(s, from),
        from <= s.len() ==> digits_end(s, from) <= s.len(),
        forall|j: int| from <= j < digits_end(s, from) ==> is_digit(#[trigger] s[j]),
        digits_end(s, from) < 0 || digits_end(s, from) >= s.len() || !is_digit(
            s[digits_end(s, from)],
        ),
    decreases s.len() - from,
{
    if 0 <= from < s.len() && is_digit(s[from]) {
        lemma_digits_end_bounds(s, from + 1);
    }
}

#[via_fn]
proof fn ops_from_decreases(line: Seq<char>, pos: int) {
    lemma_digits_end_bounds(line, pos + 1);
}

/// The instructions of a whole line.
pub open spec fn line_ops(line: Seq<char>) -> Option<Seq<Op>> {
    ops_from(line, 0)
}

/// A text with its spaces taken out.
pub open spec fn without_spaces(text: Seq<char>) -> Seq<char> {
    text.filter(|c: char| c != ' ')
}

/// A text cut into lines at every newline. There is always one line more than
/// there are newlines: the empty text is one empty line, and a text that ends
/// in a newline ends in an empty line.
pub open spec fn lines_of(text: Seq<char>) -> Seq<Seq<char>>
    decreases text.len(),
{
    if text.len() == 0 {
        seq![Seq::empty()]
    } else {
        let before = lines_of(text.drop_last());
        if text.last() == '\n' {
            before.push(Seq::empty())
        } else {
            before.drop_last().push(before.last().push(text.last()))
        }
    }
}

/// The program that a text stands for: the instructions of each of its lines,
/// or nothing where any line is malformed.
pub open spec fn program_ops(text: Seq<char>) -> Option<Seq<Seq<Op>>> {
    let lines = lines_of(without_spaces(text));
    if forall|i: int| 0 <= i < lines.len() ==> (#[trigger] line_ops(lines[i])) is Some {
        Some(Seq::new(lines.len(), |i: int| line_ops(lines[i])->0))
    } else {
        None
    }
}

/// Reads an instruction that is a lone character.
pub fn parse_single(c: char) -> (r: Option<Instruction>)
    ensures
        match r {
            Some(inst) => single_op(c) == Some(inst@),
            None => single_op(c) is None,
        },
{
    if c == 'r' {
        Some(Instruction::Read)
    } else if c == 'w' {
        Some(Instruction::Write)
    } else if c == '!' {
        Some(Instruction::Halt)
    } else if c == '.' {
        Some(Instruction::Sleep)
    } else if c == '$' {
        Some(Instruction::GlobalAdd)
    } else if c == '~' {
        Some(Instruction::GlobalSubtract)
    } else {
        None
    }
}

/// Where all of `s` between `from` and `to` are digits and no digit stands at
/// `to`, the run of digits that starts at `from` ends at `to`.
pub proof fn lemma_digits_end(s: Seq<char>, from: int, to: int)
    requires
        0 <= from <= to <= s.len(),
        forall|j: int| from <= j < to ==> is_digit(#[trigger] s[j]),
        to == s.len() || !is_digit(s[to]),
    ensures
        digits_end(s, from) == to,
    decreases to - from,
{
    if from < to {
        lemma_digits_end(s, from + 1, to);
    }
}

/// Reads an instruction that carries a number: the sigil at `pos`, then the
/// longest run of digits behind it. Gives the instruction and the position
/// behind the digits; nothing where no sigil stands at `pos`; and an error
/// where a sigil stands there that no digit follows.
pub fn parse_with_value(line: &Vec<char>, pos: usize) -> (r: Result<
    Option<(Instruction, usize)>,
    Error,
>)
    ensures
        match r {
            Ok(Some((inst, next))) => {
                &&& pos < line.len()
                &&& is_sigil(line[pos as int])
                &&& next == digits_end(line@, pos + 1)
                &&& pos + 1 < next <= line.len()
                &&& inst@ == valued_op(
                    line[pos as int],
                    digits_value(line@.subrange(pos + 1, next as int)),
                )
            },
            Ok(None) => pos >= line.len() || !is_sigil(line[pos as int]),
            Err(e) => {
                &&& e == Error::SyntaxError
                &&& pos < line.len()
                &&& is_sigil(line[pos as int])
                &&& digits_end(line@, pos + 1) == pos + 1
            },
        },
{
    if pos >= line.len() {
        return Ok(None);
    }
    let sigil = line[pos];
    if !(sigil == '=' || sigil == '+' || sigil == '*' || sigil == '-' || sigil == ':') {
        return Ok(None);
    }
    let ten = big_from_usize(10);
    let mut n = big_from_usize(0);
    let mut i: usize = pos + 1;
    while i < line.len() && line[i] >= '0' && line[i] <= '9'
        invariant
            pos + 1 <= i <= line.len(),
            big_value(ten) == 10,
            forall|j: int| pos + 1 <= j < i ==> is_digit(#[trigger] line[j]),
            big_value(n) == digits_value(line@.subrange(pos + 1, i as int)),
        decreases line.len() - i,
    {
        let digit: usize = (line[i] as u32 - 48) as usize;
        big_mul_assign(&mut n, &ten);
        let d = big_from_usize(digit);
        big_add_assign(&mut n, &d);
        assert(line@.subrange(pos + 1, i + 1).drop_last() =~= line@.subrange(pos + 1, i as int));
        i += 1;
    }
    proof {
        lemma_digits_end(line@, pos + 1, i as int);
    }
    if i == pos + 1 {
        return Err(Error::SyntaxError);
    }
    let inst = if sigil == '=' {
        Instruction::Load(n)
    } else if sigil == '+' {
        Instruction::Spawn(n)
    } else if sigil == '*' {
        Instruction::SpawnMulti(n)
    } else if sigil == '-' {
        Instruction::Kill(n)
    } else {
        Instruction::Jump(n)
    };
    Ok(Some((inst, i)))
}

/// Reads a comment: where `#` stands at `pos`, the rest of the line is
/// skipped. Anything else there is an error, since this is tried last.
pub fn parse_comment(line: &Vec<char>, pos: usize) -> (r: Result<usize, Error>)
    ensures
        match r {
            Ok(next) => pos < line.len() && line[pos as int] == '#' && next == line.len(),
            Err(e) => e == Error::SyntaxError && !(pos < line.len() && line[pos as int] == '#'),
        },
{
    if pos < line.len() && line[pos] == '#' {
        Ok(line.len())
    } else {
        Err(Error::SyntaxError)
    }
}

/// The instructions read so far in front of those still to come.
spec fn joined(done: Seq<Op>, rest: Option<Seq<Op>>) -> Option<Seq<Op>> {
    match rest {
        Some(ops) => Some(done + ops),
        None => None,
    }
}

/// Reads one line: its instructions from left to right, up to its end or to
/// a comment. The line is taken as it is, so a space or a newline in it is an
/// error like any other character that starts nothing.
pub fn parse_line(line: &Vec<char>) -> (r: Result<Vec<Instruction>, Error>)
    ensures
        match r {
            Ok(ops) => line_ops(line@) == Some(ops.deep_view()),
            Err(e) => e == Error::SyntaxError && line_ops(line@) is None,
        },
{
    let mut ops: Vec<Instruction> = Vec::new();
    let mut pos: usize = 0;
    while pos < line.len()
        invariant
            pos <= line.len(),
            line_ops(line@) == joined(ops.deep_view(), ops_from(line@, pos as int)),
        decreases line.len() - pos,
    {
        let (inst, next) = match parse_single(line[pos]) {
            Some(inst) => (inst, pos + 1),
            None => match parse_with_value(line, pos) {
                Err(e) => {
                    return Err(e);
                },
                Ok(Some(found)) => found,
                Ok(None) => match parse_comment(line, pos) {
                    Err(e) => {
                        return Err(e);
                    },
                    Ok(_) => {
                        return Ok(ops);
                    },
                },
            },
        };
        ops.push(inst);
        pos = next;
    }
    Ok(ops)
}

/// Takes every space out of a text.
pub fn strip_spaces(text: &str) -> (r: Vec<char>)
    ensures
        r@ == without_spaces(text@),
{
    let mut kept: Vec<char> = Vec::new();
    let ghost keep = |c: char| c != ' ';
    for c in it: text.chars()
        invariant
            it.seq() == text@,
            keep == (|c: char| c != ' '),
            kept@ == it.seq().take(it.index() as int).filter(keep),
    {
        proof {
            let seen = it.seq().take(it.index() as int);
            assert(it.seq().take(it.index() + 1) =~= seen.push(c));
            seen.lemma_filter_push(c, keep);
        }
        if c != ' ' {
            kept.push(c);
        }
    }
    assert(text@.take(text@.len() as int) =~= text@);
    kept
}

/// Cuts a text into its lines at every newline.
pub fn split_lines(text: &Vec<char>) -> (r: Vec<Vec<char>>)
    ensures
        r.len() == lines_of(text@).len(),
        forall|i: int| 0 <= i < r.len() ==> (#[trigger] r[i])@ == lines_of(text@)[i],
{
    let mut lines: Vec<Vec<char>> = Vec::new();
    let mut current: Vec<char> = Vec::new();
    let mut i: usize = 0;
    while i < text.len()
        invariant
            i <= text.len(),
            lines_of(text@.take(i as int)).len() == lines.len() + 1,
            forall|j: int|
                0 <= j < lines.len() ==> (#[trigger] lines[j])@ == lines_of(
                    text@.take(i as int),
                )[j],
            current@ == lines_of(text@.take(i as int)).last(),
        decreases text.len() - i,
    {
        let c = text[i];
        assert(text@.take(i + 1).drop_last() =~= text@.take(i as int));
        if c == '\n' {
            lines.push(current);
            current = Vec::new();
        } else {
            current.push(c);
        }
        i += 1;
    }
    assert(text@.take(text@.len() as int) =~= text@);
    lines.push(current);
    lines
}

/// Parses a program text. Fails as a whole where any line is malformed.
pub fn parse(program: &str) -> (r: Result<Code, Error>)
    ensures
        match r {
            Ok(code) => program_ops(program@) == Some(code.deep_view()),
            Err(e) => e == Error::SyntaxError && program_ops(program@) is None,
        },
{
    let text = strip_spaces(program);
    let lines = split_lines(&text);
    let ghost model_lines = lines_of(without_spaces(program@));
    let mut code: Code = Vec::new();
    let mut i: usize = 0;
    while i < lines.len()
        invariant
            i <= lines.len(),
            code.len() == i,
            model_lines == lines_of(without_spaces(program@)),
            lines.len() == model_lines.len(),
            forall|j: int| 0 <= j < lines.len() ==> (#[trigger] lines[j])@ == model_lines[j],
            forall|j: int|
                0 <= j < i ==> line_ops(model_lines[j]) == Some((#[trigger] code[j]).deep_view()),
        decreases lines.len() - i,
    {
        match parse_line(&lines[i]) {
            Ok(ops) => {
                code.push(ops);
            },
            Err(e) => {
                return Err(e);
            },
        }
        i += 1;
    }
    assert forall|j: int| 0 <= j < model_lines.len() implies (#[trigger] line_ops(
        model_lines[j],
    )) is Some by {
        assert(line_ops(model_lines[j]) == Some(code[j].deep_view()));
    }
    assert forall|j: int| 0 <= j < code.len() implies #[trigger] code.deep_view()[j] == line_ops(
        model_lines[j],
    )->0 by {}
    Ok(code)
}

} // verus!
