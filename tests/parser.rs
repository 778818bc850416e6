use headache::error::ParserError;
use headache::instruction::Instruction;
use headache::parser::parse;

#[test]
fn lone_open_is_incomplete() {
    assert_eq!(parse("["), Err(ParserError::IncompleteLoop));
    assert_eq!(parse("+[[-]"), Err(ParserError::IncompleteLoop));
}

#[test]
fn lone_close_is_unexpected() {
    assert_eq!(parse("]"), Err(ParserError::UnexpectedToken));
    assert_eq!(parse("+]["), Err(ParserError::UnexpectedToken));
}

#[test]
fn empty_and_comments_only() {
    assert_eq!(parse(""), Ok(vec![]));
    assert_eq!(parse("hello world, said nobody"), Ok(vec![Instruction::Read]));
    assert_eq!(parse("no commands here"), Ok(vec![]));
}

#[test]
fn runs_are_fused() {
    assert_eq!(parse("+++--"), Ok(vec![Instruction::Add(1)]));
    assert_eq!(parse("-"), Ok(vec![Instruction::Add(255)]));
    assert_eq!(parse(">><"), Ok(vec![Instruction::Move(1)]));
    assert_eq!(parse("<<<"), Ok(vec![Instruction::Move(-3)]));
    assert_eq!(parse("+>"), Ok(vec![Instruction::Add(1), Instruction::Move(1)]));
    assert_eq!(parse("+-"), Ok(vec![Instruction::Add(0)]));
    assert_eq!(parse("><"), Ok(vec![Instruction::Move(0)]));
}

#[test]
fn additions_wrap_at_256() {
    let many = "+".repeat(256 + 7);
    assert_eq!(parse(&many), Ok(vec![Instruction::Add(7)]));
    assert_eq!(parse(&"+".repeat(256)), Ok(vec![Instruction::Add(0)]));
}

#[test]
fn io_is_never_fused() {
    assert_eq!(parse(".."), Ok(vec![Instruction::Write, Instruction::Write]));
    assert_eq!(parse(",,"), Ok(vec![Instruction::Read, Instruction::Read]));
}

#[test]
fn clear_idioms() {
    assert_eq!(parse("[-]"), Ok(vec![Instruction::Clear]));
    assert_eq!(parse("[+]"), Ok(vec![Instruction::Clear]));
    assert_eq!(parse("[+++]"), Ok(vec![Instruction::Clear]));
    assert_eq!(parse("[--]"), Ok(vec![Instruction::Loop(vec![Instruction::Add(254)])]));
}

#[test]
fn transfer_idioms() {
    assert_eq!(parse("[->+<]"), Ok(vec![Instruction::AddTo { offset: 1 }]));
    assert_eq!(parse("[->>>+<<<]"), Ok(vec![Instruction::AddTo { offset: 3 }]));
    assert_eq!(parse("[-<<+>>]"), Ok(vec![Instruction::AddTo { offset: -2 }]));
    assert_eq!(
        parse("[->+<<]"),
        Ok(vec![Instruction::Loop(vec![
            Instruction::Add(255),
            Instruction::Move(1),
            Instruction::Add(1),
            Instruction::Move(-2),
        ])])
    );
}

#[test]
fn nested_loops() {
    assert_eq!(
        parse("+[>[.]<-]"),
        Ok(vec![
            Instruction::Add(1),
            Instruction::Loop(vec![
                Instruction::Move(1),
                Instruction::Loop(vec![Instruction::Write]),
                Instruction::Move(-1),
                Instruction::Add(255),
            ]),
        ])
    );
}

#[test]
fn reparse_of_rendering_is_equal() {
    // `[->+<]` rendered back from AddTo(1) parses to the same program.
    let first = parse("+++ move [->+<] done .").unwrap();
    let again = parse("+++[->+<].").unwrap();
    assert_eq!(first, again);
}

#[test]
fn comments_do_not_change_the_program() {
    assert_eq!(parse("+a+b>c[d-e]f."), parse("++>[-]."));
    assert_eq!(parse("é ü + ∑ -"), parse("+-"));
}
