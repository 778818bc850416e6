use headache::error::{Error, ParserError};
use headache::executor::{Action, Executor};

/// Run the loaded program to its end, feeding it `input`; `None` when it asks
/// for more input than there is or runs longer than `limit` steps.
fn run(executor: &mut Executor, input: &[u8], limit: usize) -> Option<Vec<u8>> {
    let mut output = Vec::new();
    let mut next_input = input.iter();
    for _ in 0..limit {
        match executor.step() {
            Action::Continue => {}
            Action::Output(b) => output.push(b),
            Action::Input => executor.supply(*next_input.next()?),
            Action::Halt => return Some(output),
        }
    }
    None
}

fn output_of(program: &str, input: &[u8]) -> Vec<u8> {
    let mut executor = Executor::new();
    executor.load(program).unwrap();
    run(&mut executor, input, 1_000_000).unwrap()
}

#[test]
fn adds_two_input_bytes() {
    assert_eq!(output_of(",>,<[->+<]>.", &[3, 4]), vec![7]);
    assert_eq!(output_of(",>,<[->+<]>.", b"34"), vec![b'3' + b'4']);
}

#[test]
fn addition_wraps_every_256() {
    for k in [0usize, 1, 7, 200, 255] {
        let plain = format!("{}.", "+".repeat(k));
        let wrapped = format!("{}.", "+".repeat(k + 256));
        assert_eq!(output_of(&plain, &[]), output_of(&wrapped, &[]));
        assert_eq!(output_of(&plain, &[]), vec![k as u8]);
    }
}

#[test]
fn decrement_from_zero_wraps() {
    assert_eq!(output_of("-.", &[]), vec![255]);
}

#[test]
fn move_there_and_back() {
    // A marker in cell 0 is seen again after moving away and back.
    assert_eq!(output_of("+++++>>>>>>>><<<<<<<<.", &[]), vec![5]);
    assert_eq!(output_of("+++++<<<<<<<<<>>>>>>>>>.", &[]), vec![5]);
}

#[test]
fn pointer_wraps_around_the_tape() {
    // One step left of cell 0 is the last cell; the full tape length is a no-op.
    let around = format!("+++{}.", ">".repeat(30000));
    assert_eq!(output_of(&around, &[]), vec![3]);
    assert_eq!(output_of("<++>.<.", &[]), vec![0, 2]);
}

#[test]
fn clear_loops_zero_the_cell() {
    for start in [1usize, 2, 17, 255] {
        let minus = format!("{}[-].", "+".repeat(start));
        let plus = format!("{}[+].", "+".repeat(start));
        assert_eq!(output_of(&minus, &[]), vec![0]);
        assert_eq!(output_of(&plus, &[]), vec![0]);
    }
}

#[test]
fn transfer_adds_into_neighbour() {
    // (a, b) = (3, 4) at offsets 0 and 2.
    assert_eq!(output_of("+++>>++++<<[->>+<<].>>.", &[]), vec![0, 7]);
    // Wrapping: (200, 100) gives (0, 44).
    let src = format!("{}>{}<[->+<].>.", "+".repeat(200), "+".repeat(100));
    assert_eq!(output_of(&src, &[]), vec![0, 44]);
    // Leftwards across the start of the tape.
    assert_eq!(output_of("<+>++[-<+>].<.", &[]), vec![0, 3]);
}

#[test]
fn infinite_loop_never_halts() {
    let mut executor = Executor::new();
    executor.load("+[]").unwrap();
    assert_eq!(run(&mut executor, &[], 100_000), None);
}

#[test]
fn tape_persists_between_programs() {
    let mut executor = Executor::new();
    executor.load("+++>++").unwrap();
    assert_eq!(run(&mut executor, &[], 1000), Some(vec![]));
    executor.load("<.>.").unwrap();
    assert_eq!(run(&mut executor, &[], 1000), Some(vec![3, 2]));
}

#[test]
fn load_reports_parse_errors_and_keeps_state() {
    let mut executor = Executor::new();
    executor.load("+++").unwrap();
    run(&mut executor, &[], 100).unwrap();
    assert!(matches!(executor.load("["), Err(Error::ParseError(ParserError::IncompleteLoop))));
    assert!(matches!(executor.load("]"), Err(Error::ParseError(ParserError::UnexpectedToken))));
    assert_eq!(executor.current(), 3);
    assert_eq!(executor.step(), Action::Halt);
}

#[test]
fn read_then_write_echoes() {
    assert_eq!(output_of(",.,.", b"hi"), b"hi".to_vec());
}

#[test]
fn read_past_end_of_input_stops() {
    let mut executor = Executor::new();
    executor.load(",.,.").unwrap();
    assert_eq!(run(&mut executor, b"h", 100), None);
}

#[test]
fn default_matches_new() {
    let mut a = Executor::default();
    let mut b = Executor::new();
    a.load("+++.").unwrap();
    b.load("+++.").unwrap();
    assert_eq!(run(&mut a, &[], 100), run(&mut b, &[], 100));
    assert_eq!(a.current(), 3);
}
