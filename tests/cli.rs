use headache::cli::{reply, request, wants_exit, CLIError, Reply, Request};
use headache::error::{CompileFailure, Error, ParserError};

#[test]
fn file_wins() {
    let r = request(Some("a.bf".to_string()), Some("+".to_string()), true);
    assert_eq!(r.unwrap(), Request::File("a.bf".to_string()));
}

#[test]
fn script_before_interactive() {
    let r = request(None, Some("+.".to_string()), true);
    assert_eq!(r.unwrap(), Request::Source("+.".to_string()));
    assert_eq!(request(None, None, true).unwrap(), Request::Interactive);
}

#[test]
fn nothing_requested_is_an_error() {
    match request(None, None, false) {
        Err(CLIError::Cli(message)) => {
            assert_eq!(message, "Error: No file provided and not running in interpreted mode or eval mode")
        }
        other => panic!("unexpected {:?}", other),
    }
}

#[test]
fn exit_anywhere_in_the_buffer() {
    assert!(wants_exit("exit"));
    assert!(wants_exit("+++\nexit\n"));
    assert!(wants_exit("say exit."));
    assert!(!wants_exit("exi"));
    assert!(!wants_exit(""));
    assert!(!wants_exit("ex it"));
}

#[test]
fn replies_to_load_outcomes() {
    assert_eq!(reply(&Ok(())), Reply::Run);
    assert_eq!(reply(&Err(Error::ParseError(ParserError::IncompleteLoop))), Reply::Continue);
    assert_eq!(reply(&Err(Error::ParseError(ParserError::UnexpectedToken))), Reply::Reject);
    assert_eq!(reply(&Err(Error::CompileError(CompileFailure::TooLarge))), Reply::Stop);
}
