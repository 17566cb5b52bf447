use ishi::error::Error;
use ishi::instruction::Instruction;
use ishi::parser::{
    parse, parse_comment, parse_line, parse_single, parse_with_value, split_lines, strip_spaces,
};
use num_bigint::BigUint;

fn big(n: u64) -> BigUint {
    BigUint::from(n)
}

fn chars(s: &str) -> Vec<char> {
    s.chars().collect()
}

#[test]
fn a_sigil_without_digits_is_a_syntax_error() {
    assert_eq!(parse("+"), Err(Error::SyntaxError));
}

#[test]
fn every_sigil_needs_a_digit() {
    for text in ["=", "+", "*", "-", ":"] {
        assert_eq!(parse(text), Err(Error::SyntaxError));
    }
}

#[test]
fn sigil_followed_by_comment_is_a_syntax_error() {
    assert_eq!(parse("+#3"), Err(Error::SyntaxError));
    assert_eq!(parse("=5\n:#1\nw"), Err(Error::SyntaxError));
}

#[test]
fn sigil_followed_by_space_then_digits_parses() {
    assert_eq!(parse("= 1 2"), Ok(vec![vec![Instruction::Load(big(12))]]));
}

#[test]
fn unrecognized_character_is_a_syntax_error() {
    assert_eq!(parse("x"), Err(Error::SyntaxError));
    assert_eq!(parse("w\n5"), Err(Error::SyntaxError));
    assert_eq!(parse("r\r\nw"), Err(Error::SyntaxError));
    assert_eq!(parse("w\tw"), Err(Error::SyntaxError));
}

#[test]
fn digits_outside_ascii_are_no_digits() {
    assert_eq!(parse("=\u{0663}"), Err(Error::SyntaxError));
}

#[test]
fn single_character_instructions() {
    assert_eq!(
        parse("rw!.$~"),
        Ok(vec![vec![
            Instruction::Read,
            Instruction::Write,
            Instruction::Halt,
            Instruction::Sleep,
            Instruction::GlobalAdd,
            Instruction::GlobalSubtract,
        ]])
    );
}

#[test]
fn value_bearing_instructions() {
    assert_eq!(
        parse("=5+3*4-9:1"),
        Ok(vec![vec![
            Instruction::Load(big(5)),
            Instruction::Spawn(big(3)),
            Instruction::SpawnMulti(big(4)),
            Instruction::Kill(big(9)),
            Instruction::Jump(big(1)),
        ]])
    );
}

#[test]
fn the_longest_run_of_digits_is_taken() {
    assert_eq!(
        parse("=123w=45"),
        Ok(vec![vec![
            Instruction::Load(big(123)),
            Instruction::Write,
            Instruction::Load(big(45)),
        ]])
    );
}

#[test]
fn leading_zeros_do_not_count() {
    assert_eq!(parse("=007"), Ok(vec![vec![Instruction::Load(big(7))]]));
    assert_eq!(parse(":0"), Ok(vec![vec![Instruction::Jump(big(0))]]));
}

#[test]
fn numbers_beyond_any_machine_word() {
    let text = "=340282366920938463463374607431768211456";
    let expected = BigUint::from(1u8) << 128usize;
    assert_eq!(parse(text), Ok(vec![vec![Instruction::Load(expected)]]));
}

#[test]
fn numbers_of_many_hundred_digits_keep_every_digit() {
    let mut text = String::from("=");
    for i in 0..700 {
        text.push(char::from(b'1' + (i % 9) as u8));
    }
    let code = parse(&text).unwrap();
    assert_eq!(code.len(), 1);
    assert_eq!(code[0].len(), 1);
    assert_eq!(code[0][0].to_text(), text);
    let expected = BigUint::parse_bytes(text[1..].as_bytes(), 10).unwrap();
    assert_eq!(code[0][0], Instruction::Load(expected));
}

#[test]
fn spaces_mean_nothing() {
    assert_eq!(
        parse(" = 1 2  w "),
        Ok(vec![vec![Instruction::Load(big(12)), Instruction::Write]])
    );
    assert_eq!(parse("   "), Ok(vec![vec![]]));
}

#[test]
fn comments_run_to_the_end_of_the_line() {
    assert_eq!(
        parse("w # =x not read\n!"),
        Ok(vec![vec![Instruction::Write], vec![Instruction::Halt]])
    );
    assert_eq!(parse("# only a comment"), Ok(vec![vec![]]));
}

#[test]
fn blank_lines_are_lines() {
    assert_eq!(
        parse("w\n\n#c\n!"),
        Ok(vec![vec![Instruction::Write], vec![], vec![], vec![Instruction::Halt]])
    );
}

#[test]
fn the_empty_text_is_one_empty_line() {
    assert_eq!(parse(""), Ok(vec![vec![]]));
}

#[test]
fn a_final_newline_opens_an_empty_line() {
    assert_eq!(parse("w\n"), Ok(vec![vec![Instruction::Write], vec![]]));
    assert_eq!(parse("\n"), Ok(vec![vec![], vec![]]));
}

#[test]
fn an_error_on_any_line_fails_the_whole_program() {
    assert_eq!(parse("w\nw\n?\nw"), Err(Error::SyntaxError));
    assert_eq!(parse("?\nw"), Err(Error::SyntaxError));
}

#[test]
fn parse_single_knows_the_six_characters() {
    assert_eq!(parse_single('r'), Some(Instruction::Read));
    assert_eq!(parse_single('w'), Some(Instruction::Write));
    assert_eq!(parse_single('!'), Some(Instruction::Halt));
    assert_eq!(parse_single('.'), Some(Instruction::Sleep));
    assert_eq!(parse_single('$'), Some(Instruction::GlobalAdd));
    assert_eq!(parse_single('~'), Some(Instruction::GlobalSubtract));
    assert_eq!(parse_single('='), None);
    assert_eq!(parse_single('#'), None);
    assert_eq!(parse_single('7'), None);
}

#[test]
fn parse_with_value_reads_sigil_and_digits() {
    let line = chars("w=42!");
    assert_eq!(parse_with_value(&line, 1), Ok(Some((Instruction::Load(big(42)), 4))));
    assert_eq!(parse_with_value(&line, 0), Ok(None));
    assert_eq!(parse_with_value(&line, 4), Ok(None));
    assert_eq!(parse_with_value(&line, 5), Ok(None));
    let line = chars("+19");
    assert_eq!(parse_with_value(&line, 0), Ok(Some((Instruction::Spawn(big(19)), 3))));
    let line = chars("*8");
    assert_eq!(parse_with_value(&line, 0), Ok(Some((Instruction::SpawnMulti(big(8)), 2))));
    let line = chars("-0");
    assert_eq!(parse_with_value(&line, 0), Ok(Some((Instruction::Kill(big(0)), 2))));
    let line = chars(":305");
    assert_eq!(parse_with_value(&line, 0), Ok(Some((Instruction::Jump(big(305)), 4))));
}

#[test]
fn parse_with_value_rejects_a_bare_sigil() {
    assert_eq!(parse_with_value(&chars("="), 0), Err(Error::SyntaxError));
    assert_eq!(parse_with_value(&chars("=w"), 0), Err(Error::SyntaxError));
    assert_eq!(parse_with_value(&chars("w:"), 1), Err(Error::SyntaxError));
}

#[test]
fn parse_comment_skips_to_the_end() {
    let line = chars("w#rest");
    assert_eq!(parse_comment(&line, 1), Ok(6));
    assert_eq!(parse_comment(&line, 0), Err(Error::SyntaxError));
    assert_eq!(parse_comment(&line, 6), Err(Error::SyntaxError));
}

#[test]
fn parse_line_stops_at_a_comment() {
    assert_eq!(
        parse_line(&chars("=1w#!!")),
        Ok(vec![Instruction::Load(big(1)), Instruction::Write])
    );
    assert_eq!(parse_line(&chars("")), Ok(vec![]));
    assert_eq!(parse_line(&chars("w w")), Err(Error::SyntaxError));
}

#[test]
fn strip_spaces_keeps_everything_else() {
    assert_eq!(strip_spaces(" a  b\n c\t"), chars("ab\nc\t"));
    assert_eq!(strip_spaces(""), chars(""));
}

#[test]
fn split_lines_cuts_at_every_newline() {
    assert_eq!(split_lines(&chars("ab\n\ncd")), vec![chars("ab"), chars(""), chars("cd")]);
    assert_eq!(split_lines(&chars("")), vec![chars("")]);
    assert_eq!(split_lines(&chars("\n")), vec![chars(""), chars("")]);
}

#[test]
fn to_text_is_sigil_and_decimal() {
    assert_eq!(Instruction::Load(big(5)).to_text(), "=5");
    assert_eq!(Instruction::Spawn(big(30)).to_text(), "+30");
    assert_eq!(Instruction::SpawnMulti(big(0)).to_text(), "*0");
    assert_eq!(Instruction::Kill(big(1000)).to_text(), "-1000");
    assert_eq!(Instruction::Jump(big(12)).to_text(), ":12");
    assert_eq!(Instruction::Read.to_text(), "r");
    assert_eq!(Instruction::Write.to_text(), "w");
    assert_eq!(Instruction::Halt.to_text(), "!");
    assert_eq!(Instruction::Sleep.to_text(), ".");
    assert_eq!(Instruction::GlobalAdd.to_text(), "$");
    assert_eq!(Instruction::GlobalSubtract.to_text(), "~");
}

#[test]
fn text_of_an_instruction_parses_back_to_it() {
    let huge = BigUint::from(10u8).pow(40u32) + BigUint::from(7u8);
    let all = vec![
        Instruction::Load(big(0)),
        Instruction::Load(huge.clone()),
        Instruction::Spawn(big(3)),
        Instruction::SpawnMulti(big(10)),
        Instruction::Kill(huge),
        Instruction::Jump(big(99)),
        Instruction::Read,
        Instruction::Write,
        Instruction::Halt,
        Instruction::Sleep,
        Instruction::GlobalAdd,
        Instruction::GlobalSubtract,
    ];
    for inst in all {
        assert_eq!(parse(&inst.to_text()), Ok(vec![vec![inst]]));
    }
}
