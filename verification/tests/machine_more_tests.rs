use miniforth::common::Error;
use miniforth::function_table::FunctionTable;
use miniforth::parser::InstructionType::{
    Add, Call, Div, Dup, Else, EndIf, EndWhile, If, Mul, Nip, Over, Pop, Print, Push, Ret, Rot, Sub,
    Swap, While,
};
use miniforth::parser::{Instruction, InstructionType};
use miniforth::program::Program;
use miniforth::stack::{Stack, VecStack};
use miniforth::stack_machine::{StackMachine, STEP_BUDGET};

fn at(instruction_type: InstructionType, pos: usize) -> Instruction {
    Instruction {
        instruction_type,
        pos,
        line: 1,
    }
}

fn list(kinds: Vec<InstructionType>) -> Vec<Instruction> {
    let mut out = Vec::new();
    for (i, kind) in kinds.into_iter().enumerate() {
        out.push(at(kind, i + 1));
    }
    out
}

fn run(kinds: Vec<InstructionType>) -> Result<Vec<i32>, Error> {
    let mut machine = StackMachine::new(VecStack::new());
    machine.execute(list(kinds))
}

#[test]
fn push_then_print_yields_the_value() {
    for n in [0, 1, -1, 42, i32::MAX, i32::MIN] {
        assert_eq!(run(vec![Push(n), Print]), Ok(vec![n]));
    }
}

#[test]
fn sub_takes_the_top_from_the_second() {
    assert_eq!(run(vec![Push(10), Push(3), Sub, Print]), Ok(vec![7]));
    assert_eq!(run(vec![Push(3), Push(10), Sub, Print]), Ok(vec![-7]));
}

#[test]
fn div_divides_the_second_by_the_top() {
    assert_eq!(run(vec![Push(7), Push(2), Div, Print]), Ok(vec![3]));
    assert_eq!(run(vec![Push(2), Push(7), Div, Print]), Ok(vec![0]));
}

#[test]
fn div_rounds_toward_zero() {
    assert_eq!(run(vec![Push(-7), Push(2), Div, Print]), Ok(vec![-3]));
    assert_eq!(run(vec![Push(7), Push(-2), Div, Print]), Ok(vec![-3]));
    assert_eq!(run(vec![Push(-7), Push(-2), Div, Print]), Ok(vec![3]));
    assert_eq!(run(vec![Push(0), Push(-2), Div, Print]), Ok(vec![0]));
}

#[test]
fn add_and_mul_ignore_the_order() {
    assert_eq!(
        run(vec![Push(6), Push(-4), Add, Print]),
        run(vec![Push(-4), Push(6), Add, Print])
    );
    assert_eq!(run(vec![Push(6), Push(-4), Add, Print]), Ok(vec![2]));
    assert_eq!(
        run(vec![Push(6), Push(-4), Mul, Print]),
        run(vec![Push(-4), Push(6), Mul, Print])
    );
    assert_eq!(run(vec![Push(6), Push(-4), Mul, Print]), Ok(vec![-24]));
}

#[test]
fn arithmetic_wraps_around() {
    assert_eq!(run(vec![Push(i32::MAX), Push(1), Add, Print]), Ok(vec![i32::MIN]));
    assert_eq!(run(vec![Push(i32::MIN), Push(1), Sub, Print]), Ok(vec![i32::MAX]));
    assert_eq!(run(vec![Push(65536), Push(65536), Mul, Print]), Ok(vec![0]));
    assert_eq!(run(vec![Push(i32::MAX), Push(2), Mul, Print]), Ok(vec![-2]));
    assert_eq!(run(vec![Push(i32::MIN), Push(-1), Div, Print]), Ok(vec![i32::MIN]));
    assert_eq!(run(vec![Push(i32::MIN), Push(-1), Mul, Print]), Ok(vec![i32::MIN]));
}

#[test]
fn division_by_zero_is_an_error() {
    assert_eq!(
        run(vec![Push(1), Push(0), Div, Print]),
        Err(Error::DivisionByZero { pos: 3, line: 1 })
    );
}

#[test]
fn division_by_zero_takes_both_operands() {
    let here = at(InstructionType::Div, 3);
    let mut machine = StackMachine::new(VecStack::new());
    machine.push(9);
    machine.push(1);
    machine.push(0);
    assert_eq!(machine.div(&here), Err(Error::DivisionByZero { pos: 3, line: 1 }));
    assert_eq!(machine.0.size(), 1);
    assert_eq!(machine.0.peek(), Some(&9));
}

#[test]
fn a_failed_run_leaves_the_stack_empty() {
    let mut machine = StackMachine::new(VecStack::new());
    let result = machine.execute(list(vec![Push(9), Push(1), Push(0), Div]));
    assert_eq!(result, Err(Error::DivisionByZero { pos: 4, line: 1 }));
    assert!(machine.0.is_empty());
}

#[test]
fn underflow_names_the_failing_instruction() {
    assert_eq!(
        run(vec![Push(2), Push(2), Print, Add]),
        Err(Error::StackEmpty { pos: 4, line: 1 })
    );
}

#[test]
fn underflow_leaves_the_stack_empty() {
    let mut machine = StackMachine::new(VecStack::new());
    let result = machine.execute(list(vec![Push(1), Push(2), Rot]));
    assert_eq!(result, Err(Error::StackEmpty { pos: 3, line: 1 }));
    assert!(machine.0.is_empty());
}

#[test]
fn every_stack_instruction_fails_on_an_empty_stack() {
    for kind in [
        Pop, Add, Sub, Mul, Div, Print, Dup, Swap, Rot, Over, Nip, While(0), EndWhile(0), If(0),
    ] {
        assert_eq!(
            run(vec![kind]),
            Err(Error::StackEmpty { pos: 1, line: 1 })
        );
    }
}

#[test]
fn a_run_discards_its_stack() {
    let mut machine = StackMachine::new(VecStack::new());
    let result = machine.execute(list(vec![Push(1), Push(2), Push(3), Print]));
    assert_eq!(result, Ok(vec![3]));
    assert!(machine.0.is_empty());
    assert_eq!(machine.0.pop(), None);
}

#[test]
fn a_run_starts_on_an_empty_stack() {
    let mut machine = StackMachine::new(VecStack::new());
    machine.push(20);
    machine.push(22);
    assert_eq!(
        machine.execute(list(vec![Add, Print])),
        Err(Error::StackEmpty { pos: 1, line: 1 })
    );
    assert!(machine.0.is_empty());
}

#[test]
fn a_run_does_not_see_an_earlier_run() {
    let mut machine = StackMachine::new(VecStack::new());
    assert_eq!(machine.execute(list(vec![Push(1)])), Ok(vec![]));
    assert_eq!(
        machine.execute(list(vec![Print])),
        Err(Error::StackEmpty { pos: 1, line: 1 })
    );
    assert_eq!(machine.execute(list(vec![Push(1), Print])), Ok(vec![1]));
    assert_eq!(machine.execute(list(vec![Push(1), Print])), Ok(vec![1]));
}

#[test]
fn clear_empties_the_stack() {
    let mut machine = StackMachine::new(VecStack::new());
    machine.clear();
    assert!(machine.0.is_empty());
    machine.push(1);
    machine.push(2);
    machine.push(3);
    machine.clear();
    assert!(machine.0.is_empty());
    assert_eq!(machine.0.size(), 0);
}

#[test]
fn basic_operations_one_by_one() {
    let here = at(InstructionType::Pop, 5);
    let mut machine = StackMachine::new(VecStack::new());
    assert_eq!(machine.pop(&here), Err(Error::StackEmpty { pos: 5, line: 1 }));
    assert_eq!(machine.peek(&here), Err(Error::StackEmpty { pos: 5, line: 1 }));
    machine.push(1);
    machine.push(2);
    machine.push(3);
    assert_eq!(machine.peek(&here), Ok(&3));
    assert_eq!(machine.rot(&here), Ok(()));
    // 1 2 3 becomes 2 3 1
    assert_eq!(machine.peek(&here), Ok(&1));
    assert_eq!(machine.swap(&here), Ok(()));
    // 2 1 3
    assert_eq!(machine.over(&here), Ok(()));
    // 2 1 3 1
    assert_eq!(machine.0.size(), 4);
    assert_eq!(machine.nip(&here), Ok(()));
    // 2 1 1
    assert_eq!(machine.dup(&here), Ok(()));
    // 2 1 1 1
    assert_eq!(machine.mul(&here), Ok(()));
    // 2 1 1
    assert_eq!(machine.sub(&here), Ok(()));
    // 2 0
    assert_eq!(machine.div(&here), Err(Error::DivisionByZero { pos: 5, line: 1 }));
    assert!(machine.0.is_empty());
    machine.push(9);
    machine.push(-2);
    assert_eq!(machine.div(&here), Ok(()));
    assert_eq!(machine.pop(&here), Ok(-4));
    assert_eq!(machine.add(&here), Err(Error::StackEmpty { pos: 5, line: 1 }));
}

#[test]
fn while_skips_the_loop_on_zero() {
    assert_eq!(
        run(vec![Push(0), While(4), Push(5), Print, EndWhile(1), Print]),
        Ok(vec![0])
    );
}

#[test]
fn if_takes_the_first_branch_on_nonzero() {
    let program = vec![Push(1), If(4), Push(10), Print, Else(7), Push(20), Print, EndIf, Print];
    assert_eq!(run(program), Ok(vec![10, 1]));
}

#[test]
fn if_takes_the_second_branch_on_zero() {
    let program = vec![Push(0), If(4), Push(10), Print, Else(7), Push(20), Print, EndIf, Print];
    assert_eq!(run(program), Ok(vec![20, 0]));
}

#[test]
fn call_returns_behind_the_call() {
    // 0: call 3, 1: print, 2: ret (ends the run), 3: push 7, 4: ret
    assert_eq!(run(vec![Call(3), Print, Ret, Push(7), Ret]), Ok(vec![7]));
}

#[test]
fn nested_calls_return_in_order() {
    // 0: call 4, 1: push 3, 2: print, 3: ret, 4: call 8, 5: push 2, 6: print, 7: ret,
    // 8: push 1, 9: print, 10: ret
    let program = vec![
        Call(4), Push(3), Print, Ret, Call(8), Push(2), Print, Ret, Push(1), Print, Ret,
    ];
    assert_eq!(run(program), Ok(vec![1, 2, 3]));
}

#[test]
fn ret_without_a_call_ends_the_run() {
    assert_eq!(run(vec![Push(1), Print, Ret, Push(2), Print]), Ok(vec![1]));
}

#[test]
fn a_jump_past_the_end_ends_the_run() {
    assert_eq!(run(vec![Push(0), While(usize::MAX), Push(1), Print]), Ok(vec![]));
    assert_eq!(run(vec![Push(4), Print, Else(100), Push(1), Print]), Ok(vec![4]));
    assert_eq!(run(vec![Push(4), Print, Call(5), Push(1), Print]), Ok(vec![4]));
}

#[test]
fn an_empty_program_prints_nothing() {
    assert_eq!(run(vec![]), Ok(vec![]));
}

#[test]
fn the_step_budget_ends_an_endless_loop() {
    let program = list(vec![Push(1), While(2), EndWhile(1)]);
    let mut machine = StackMachine::new(VecStack::new());
    assert_eq!(
        machine.execute_bounded(&program, 0, 100),
        Err(Error::StepLimit { pos: 3, line: 1 })
    );
    assert!(machine.0.is_empty());
}

#[test]
fn the_step_budget_counts_instructions() {
    let program = list(vec![Push(1), Print, Push(2), Print]);
    let mut machine = StackMachine::new(VecStack::new());
    assert_eq!(machine.execute_bounded(&program, 0, 4), Ok(vec![1, 2]));
    assert_eq!(
        machine.execute_bounded(&program, 0, 3),
        Err(Error::StepLimit { pos: 4, line: 1 })
    );
    let mut fresh = StackMachine::new(VecStack::new());
    assert_eq!(
        fresh.execute_bounded(&program, 0, 0),
        Err(Error::StepLimit { pos: 1, line: 1 })
    );
    assert_eq!(fresh.execute_bounded(&Vec::new(), 0, 0), Ok(vec![]));
    assert_eq!(STEP_BUDGET, u64::MAX);
}

#[test]
fn execute_bounded_starts_at_the_entry() {
    let program = list(vec![Push(1), Print, Push(2), Print]);
    let mut machine = StackMachine::new(VecStack::new());
    assert_eq!(machine.execute_bounded(&program, 2, 10), Ok(vec![2]));
    assert_eq!(machine.execute_bounded(&program, 4, 10), Ok(vec![]));
    assert_eq!(machine.execute_bounded(&program, 9, 10), Ok(vec![]));
}

#[test]
fn run_needs_a_main() {
    let program = Program {
        instructions: list(vec![Push(1), Print]),
        functions: FunctionTable::new(),
    };
    let mut machine = StackMachine::new(VecStack::new());
    machine.push(5);
    assert_eq!(
        machine.run(&program),
        Err(Error::FunctionNotFound {
            word: "main".to_string(),
            pos: 0,
            line: 0
        })
    );
    // Nothing was executed: the machine is as it was.
    assert_eq!(machine.0.size(), 1);
    assert_eq!(machine.0.peek(), Some(&5));
}

#[test]
fn run_starts_at_main() {
    let mut functions = FunctionTable::new();
    functions.insert("helper".to_string(), 0);
    functions.insert("main".to_string(), 3);
    let program = Program {
        instructions: list(vec![Push(7), Print, Ret, Call(0), Push(8), Print, Ret]),
        functions,
    };
    let mut machine = StackMachine::new(VecStack::new());
    machine.push(5);
    assert_eq!(machine.run(&program), Ok(vec![7, 8]));
    assert!(machine.0.is_empty());
}
