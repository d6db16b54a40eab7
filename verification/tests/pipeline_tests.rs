use miniforth::checker::{check_stack_safety, is_straight_line};
use miniforth::common::Error;
use miniforth::parser::parse;
use miniforth::stack::{Stack, VecStack};
use miniforth::stack_machine::StackMachine;
use miniforth::tokenizer::{tokenize, Token, TokenType};

fn execute(source: &str) -> Result<Vec<i32>, Error> {
    let program = parse(tokenize(source)?)?;
    let mut machine = StackMachine::new(VecStack::new());
    machine.execute(program.instructions)
}

fn run(source: &str) -> Result<Vec<i32>, Error> {
    let program = parse(tokenize(source)?)?;
    let mut machine = StackMachine::new(VecStack::new());
    machine.run(&program)
}

#[test]
fn countdown_loop() {
    assert_eq!(execute("3 while 5 print 1 - end"), Ok(vec![5, 5, 5]));
}

#[test]
fn countdown_loop_prints_the_counter() {
    assert_eq!(execute("3 while dup print 1 - end"), Ok(vec![3, 2, 1]));
}

#[test]
fn nested_loops() {
    let source = "2 while 3 while dup print 1 - end pop 1 - end";
    assert_eq!(execute(source), Ok(vec![3, 2, 1, 3, 2, 1]));
}

#[test]
fn conditional_in_text() {
    assert_eq!(execute("1 if 10 print else 20 print end"), Ok(vec![10]));
    assert_eq!(execute("0 if 10 print else 20 print end"), Ok(vec![20]));
}

#[test]
fn underflow_in_text() {
    assert_eq!(
        execute("2 2 print\n  +"),
        Err(Error::StackEmpty { pos: 3, line: 2 })
    );
}

#[test]
fn nip_in_text() {
    assert_eq!(execute("0 1 2 nip print print"), Ok(vec![2, 0]));
}

/// The tokens of `body` and a return token behind them.
fn returning(body: &str) -> Vec<Token> {
    let mut tokens = tokenize(body).unwrap();
    tokens.push(Token {
        token_type: TokenType::Ret,
        pos: 0,
        line: 0,
    });
    tokens
}

#[test]
fn functions_from_text_and_return_tokens() {
    let mut tokens = returning("# prints twice the top\nfunction double dup + print");
    tokens.extend(returning("function main\n    4 double\n    5 double"));
    let program = parse(tokens).unwrap();
    assert_eq!(program.functions.get("double"), Some(&0));
    assert_eq!(program.functions.get("main"), Some(&4));
    let mut machine = StackMachine::new(VecStack::new());
    assert_eq!(machine.run(&program), Ok(vec![8, 10]));
}

#[test]
fn ret_in_text_is_a_name_like_any_other() {
    assert_eq!(
        run("function main 1 print ret"),
        Err(Error::Parse {
            word: "ret".to_string(),
            pos: 23,
            line: 1,
            comment: "Function not found".to_string()
        })
    );
    let program = parse(tokenize("function ret 1 print function main ret").unwrap()).unwrap();
    assert_eq!(program.functions.get("ret"), Some(&0));
    assert_eq!(program.functions.get("main"), Some(&2));
    assert_eq!(program.instructions.len(), 3);
}

#[test]
fn text_without_main() {
    assert_eq!(
        run("1 print"),
        Err(Error::FunctionNotFound {
            word: "main".to_string(),
            pos: 0,
            line: 0
        })
    );
}

#[test]
fn errors_of_each_stage() {
    assert_eq!(
        run("1 $"),
        Err(Error::UnknownToken {
            word: "$".to_string(),
            pos: 3,
            line: 1
        })
    );
    assert_eq!(
        run("function main 1 while"),
        Err(Error::Parse {
            word: "while".to_string(),
            pos: 17,
            line: 1,
            comment: "This `while` has no matching end".to_string()
        })
    );
    assert_eq!(
        run("function main 1 0 / print"),
        Err(Error::DivisionByZero { pos: 19, line: 1 })
    );
}

#[test]
fn static_check_of_text() {
    let safe = parse(tokenize("1 2 + print").unwrap()).unwrap();
    assert!(is_straight_line(&safe.instructions));
    assert_eq!(check_stack_safety(&safe.instructions), Ok(()));

    let short = parse(tokenize("1 + print").unwrap()).unwrap();
    assert!(is_straight_line(&short.instructions));
    assert!(matches!(
        check_stack_safety(&short.instructions),
        Err(Error::StaticCheck { .. })
    ));

    let looping = parse(tokenize("1 while end").unwrap()).unwrap();
    assert!(!is_straight_line(&looping.instructions));
}

#[test]
fn each_run_has_a_stack_of_its_own() {
    let mut machine = StackMachine::new(VecStack::new());
    let first = parse(tokenize("1 2 3").unwrap()).unwrap();
    assert_eq!(machine.execute(first.instructions), Ok(vec![]));
    assert!(machine.0.is_empty());
    let second = parse(tokenize("+ + print").unwrap()).unwrap();
    assert_eq!(
        machine.execute(second.instructions),
        Err(Error::StackEmpty { pos: 1, line: 1 })
    );
    let third = parse(tokenize("1 2 3 + + print").unwrap()).unwrap();
    assert_eq!(machine.execute(third.instructions), Ok(vec![6]));
    assert!(machine.0.is_empty());
}
