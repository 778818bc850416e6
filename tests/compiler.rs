use headache::compiler::{compile, generate, Hooks};
use headache::error::{Error, ParserError};
use headache::parser::parse;

fn hooks() -> Hooks {
    Hooks {
        read_fn: 0x1111_2222_3333_4444,
        input: 0x5555_6666_7777_8888,
        write_fn: 0x0102_0304_0506_0708,
        output: 0x1020_3040_5060_7080,
    }
}

const HEAD: [u8; 22] = [
    0x55, 0x48, 0x89, 0xe5, 0x41, 0x54, 0x41, 0x55, 0x49, 0x89, 0xfc, 0x4d, 0x31, 0xed, 0xeb, 0x06, 0x41,
    0x5d, 0x41, 0x5c, 0x5d, 0xc3,
];

#[test]
fn empty_program_is_prologue_and_exit() {
    let code = generate(&parse("").unwrap(), &hooks()).unwrap();
    let mut expected = HEAD.to_vec();
    // xor rax, rax; jmp back to offset 16 from the end at 30.
    expected.extend_from_slice(&[0x48, 0x31, 0xc0, 0xe9]);
    expected.extend_from_slice(&(16i32 - 30).to_le_bytes());
    assert_eq!(code, expected);
}

#[test]
fn add_and_clear_encodings() {
    let code = generate(&parse("+++[-]").unwrap(), &hooks()).unwrap();
    assert_eq!(&code[22..27], &[0x43, 0x80, 0x04, 0x2c, 3]);
    assert_eq!(&code[27..32], &[0x43, 0xc6, 0x04, 0x2c, 0x00]);
    assert_eq!(code.len(), 22 + 10 + 8);
}

#[test]
fn move_uses_the_normalised_step() {
    let code = generate(&parse("<").unwrap(), &hooks()).unwrap();
    assert_eq!(&code[22..25], &[0x49, 0x81, 0xc5]);
    assert_eq!(&code[25..29], &29999u32.to_le_bytes());
    assert_eq!(code.len(), 22 + 23 + 8);
}

#[test]
fn write_calls_the_write_hook() {
    let h = hooks();
    let code = generate(&parse(".").unwrap(), &h).unwrap();
    assert_eq!(&code[22..28], &[0x4b, 0x8d, 0x3c, 0x2c, 0x48, 0xbe]);
    assert_eq!(&code[28..36], &h.output.to_le_bytes());
    assert_eq!(&code[36..38], &[0x48, 0xb8]);
    assert_eq!(&code[38..46], &h.write_fn.to_le_bytes());
    assert_eq!(&code[46..53], &[0xff, 0xd0, 0x48, 0x85, 0xc0, 0x0f, 0x85]);
    assert_eq!(&code[53..57], &(16i32 - (22 + 35)).to_le_bytes());
}

#[test]
fn read_calls_the_read_hook() {
    let h = hooks();
    let code = generate(&parse(",").unwrap(), &h).unwrap();
    assert_eq!(&code[28..36], &h.input.to_le_bytes());
    assert_eq!(&code[38..46], &h.read_fn.to_le_bytes());
}

#[test]
fn loop_jumps_span_the_body() {
    let code = generate(&parse("[>]").unwrap(), &hooks()).unwrap();
    // cmp; je +(23 + 11); body; cmp; jne -(23 + 22)
    assert_eq!(&code[22..29], &[0x43, 0x80, 0x3c, 0x2c, 0x00, 0x0f, 0x84]);
    assert_eq!(&code[29..33], &34i32.to_le_bytes());
    assert_eq!(&code[56..63], &[0x43, 0x80, 0x3c, 0x2c, 0x00, 0x0f, 0x85]);
    assert_eq!(&code[63..67], &(-45i32).to_le_bytes());
    assert_eq!(code.len(), 22 + 45 + 8);
}

#[test]
fn transfer_encoding() {
    let code = generate(&parse("[-<+>]").unwrap(), &hooks()).unwrap();
    assert_eq!(&code[22..27], &[0x4c, 0x89, 0xe8, 0x48, 0x05]);
    assert_eq!(&code[27..31], &29999u32.to_le_bytes());
    assert_eq!(code.len(), 22 + 36 + 8);
}

#[test]
fn compile_seals_the_generated_code() {
    let h = hooks();
    let source = "++[->+<]>.";
    let expected = generate(&parse(source).unwrap(), &h).unwrap();
    let exe = compile(source, hooks()).unwrap();
    assert_eq!(&exe.code[..], &expected[..]);
}

#[test]
fn compile_reports_parse_errors() {
    assert!(matches!(compile("[", hooks()), Err(Error::ParseError(ParserError::IncompleteLoop))));
    assert!(matches!(compile("]", hooks()), Err(Error::ParseError(ParserError::UnexpectedToken))));
}
