use headache::executor::{Action, Executor};

const HELLO_WORLD: &str =
    "++++++++[>++++[>++>+++>+++>+<<<<-]>+>+>->>+[<]<-]>>.>---.+++++++..+++.>>.<-.<.+++.------.--------.>>+.>++.";

const SHORTER_HELLO_WORLD: &str =
    "+[-->-[>>+>-----<<]<--<---]>-.>>>+.>>..+++[.>]<<<<.+++.------.<<-.>>>>+.";

const COMMENTED_HELLO_WORLD: &str = "
Set cell #0 to 8
++++++++
[
    Add 4 to cell #1 which will always set it to 4
    >++++
    [
        Add 2 to cell #2 and 3 to cells #3 and #4 and 1 to cell #5
        >++>+++>+++>+<<<<-
        Decrement the loop counter in cell #1
    ]
    Add 1 to cell #2 and cell #3 then subtract 1 from cell #4 and add 1 to cell #6
    >+>+>->>+
    [<]
    Move back to the first zero cell found which is cell #1
    <-
    Decrement the loop counter in cell #0
]
Cell #2 holds 72 so print an H
>>.
Subtract 3 from cell #3 to get 101 which is an e
>---.
Likewise for llo from cell #3
+++++++..+++.
Cell #5 holds 32 for the space
>>.
Subtract 1 from cell #4 for 87 to give a W
<-.
Cell #3 was set to o from the end of Hello
<.
Cell #3 for rl and d
+++.------.--------.
Add 1 to cell #5 gives us an exclamation point
>>+.
And finally a newline from cell #6
>++.
";

const ADD: &str = "
++       Cell c0 holds two
> +++++  Cell c1 holds five

[        Start the loop on the counter in c1
< +      Add one to c0
> -      Take one from c1
]

Now c0 holds seven and c1 holds zero
To print the digit we add forty eight to c0
++++ ++++  c1 holds eight and counts the next loop
[
< +++ +++  Add six to c0
> -        Take one from c1
]
< .        Print c0 which holds fifty five or the digit seven
";

fn execute_with_output(program: &str) -> String {
    let mut executor = Executor::new();
    executor.load(program).unwrap();
    let mut output = Vec::new();
    loop {
        match executor.step() {
            Action::Continue => {}
            Action::Output(b) => output.push(b),
            Action::Input => panic!("the program asked for input"),
            Action::Halt => break,
        }
    }
    String::from_utf8(output).unwrap()
}

#[test]
fn test_hello_world_1() {
    let output = execute_with_output(HELLO_WORLD);
    assert_eq!(&output, "Hello World!\n");
}

#[test]
fn test_hello_world_2() {
    let output = execute_with_output(SHORTER_HELLO_WORLD);
    assert_eq!(&output, "Hello, World!");
}

#[test]
fn test_hello_world_3() {
    let output = execute_with_output(COMMENTED_HELLO_WORLD);
    assert_eq!(&output, "Hello World!\n");
}

#[test]
fn test_sum() {
    let output = execute_with_output(ADD);
    assert_eq!(&output, "7");
}
