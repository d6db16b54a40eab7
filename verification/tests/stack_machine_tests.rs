use miniforth::parser::{Instruction, InstructionType};
use miniforth::stack::{Stack, VecStack};
use miniforth::stack_machine::StackMachine;

#[test]
fn test_execute() {
    let program = vec![
        Instruction {
            instruction_type: InstructionType::Push(1),
            pos: 1,
            line: 1,
        },
        Instruction {
            instruction_type: InstructionType::Push(2),
            pos: 1,
            line: 1,
        },
        Instruction {
            instruction_type: InstructionType::Add,
            pos: 1,
            line: 1,
        },
        Instruction {
            instruction_type: InstructionType::Print,
            pos: 1,
            line: 1,
        },
    ];
    let mut machine = StackMachine::new(VecStack::new());
    let result = machine.execute(program);
    assert_eq!(result, Ok(vec![3]));
}

#[test]
fn pop_pops() {
    let program = vec![
        Instruction {
            instruction_type: InstructionType::Push(1),
            pos: 1,
            line: 1,
        },
        Instruction {
            instruction_type: InstructionType::Push(2),
            pos: 1,
            line: 1,
        },
        Instruction {
            instruction_type: InstructionType::Pop,
            pos: 1,
            line: 1,
        },
        Instruction {
            instruction_type: InstructionType::Print,
            pos: 1,
            line: 1,
        },
    ];
    let mut machine = StackMachine::new(VecStack::new());
    let result = machine.execute(program);
    assert_eq!(result, Ok(vec![1]));
}

#[test]
fn sub_two_numbers() {
    let program = vec![
        Instruction {
            instruction_type: InstructionType::Push(2),
            pos: 1,
            line: 1,
        },
        Instruction {
            instruction_type: InstructionType::Push(1),
            pos: 1,
            line: 1,
        },
        Instruction {
            instruction_type: InstructionType::Sub,
            pos: 1,
            line: 1,
        },
        Instruction {
            instruction_type: InstructionType::Print,
            pos: 1,
            line: 1,
        },
    ];
    let stack = VecStack::new();
    let mut machine = StackMachine::new(stack);
    let result = machine.execute(program);
    assert_eq!(result, Ok(vec![1]));
}

#[test]
fn mul_two_numbers() {
    let a = 3;
    let b = 2;
    let program = vec![
        Instruction {
            instruction_type: InstructionType::Push(a),
            pos: 1,
            line: 1,
        },
        Instruction {
            instruction_type: InstructionType::Push(b),
            pos: 1,
            line: 1,
        },
        Instruction {
            instruction_type: InstructionType::Mul,
            pos: 1,
            line: 1,
        },
        Instruction {
            instruction_type: InstructionType::Print,
            pos: 1,
            line: 1,
        },
    ];
    let stack = VecStack::new();
    let mut machine = StackMachine::new(stack);
    let result = machine.execute(program);
    assert_eq!(result, Ok(vec![a * b]));
}

#[test]
fn div_two_numbers() {
    let a = 3;
    let b = 2;
    let program = vec![
        Instruction {
            instruction_type: InstructionType::Push(a),
            pos: 1,
            line: 1,
        },
        Instruction {
            instruction_type: InstructionType::Push(b),
            pos: 1,
            line: 1,
        },
        Instruction {
            instruction_type: InstructionType::Div,
            pos: 1,
            line: 1,
        },
        Instruction {
            instruction_type: InstructionType::Print,
            pos: 1,
            line: 1,
        },
    ];
    let stack = VecStack::new();
    let mut machine = StackMachine::new(stack);
    let result = machine.execute(program);
    assert_eq!(result, Ok(vec![a / b]));
}

#[test]
fn while_loop() {
    let line = 1;
    let pos = 1;
    let program = vec![
        Instruction {
            instruction_type: InstructionType::Push(3),
            line,
            pos,
        },
        Instruction {
            instruction_type: InstructionType::While(7),
            line,
            pos,
        },
        Instruction {
            instruction_type: InstructionType::Push(5),
            line,
            pos,
        },
        Instruction {
            instruction_type: InstructionType::Print,
            line,
            pos,
        },
        Instruction {
            instruction_type: InstructionType::Push(1),
            line,
            pos,
        },
        Instruction {
            instruction_type: InstructionType::Sub,
            line,
            pos,
        },
        Instruction {
            instruction_type: InstructionType::EndWhile(1),
            line,
            pos,
        },
    ];

    let stack = VecStack::new();
    let mut machine = StackMachine::new(stack);
    let result = machine.execute(program);
    assert_eq!(result, Ok(vec![5, 5, 5]));
}

#[test]
fn dup_print_print() {
    let program = vec![
        Instruction {
            instruction_type: InstructionType::Push(3),
            pos: 1,
            line: 1,
        },
        Instruction {
            instruction_type: InstructionType::Dup,
            pos: 1,
            line: 1,
        },
        Instruction {
            instruction_type: InstructionType::Print,
            pos: 1,
            line: 1,
        },
        Instruction {
            instruction_type: InstructionType::Print,
            pos: 1,
            line: 1,
        },
    ];
    let stack = VecStack::new();
    let mut machine = StackMachine::new(stack);
    let result = machine.execute(program);
    assert_eq!(result, Ok(vec![3, 3]));
}

#[test]
fn swap_operation() {
    let program = vec![
        Instruction {
            instruction_type: InstructionType::Push(1),
            pos: 1,
            line: 1,
        },
        Instruction {
            instruction_type: InstructionType::Push(2),
            pos: 1,
            line: 1,
        },
        Instruction {
            instruction_type: InstructionType::Swap,
            pos: 1,
            line: 1,
        },
        Instruction {
            instruction_type: InstructionType::Print,
            pos: 1,
            line: 1,
        },
        Instruction {
            instruction_type: InstructionType::Print,
            pos: 1,
            line: 1,
        },
    ];
    let stack = VecStack::new();
    let mut machine = StackMachine::new(stack);
    let result = machine.execute(program);
    assert_eq!(result, Ok(vec![1, 2]));
}

#[test]
fn rot_operation() {
    let program = vec![
        Instruction {
            instruction_type: InstructionType::Push(1),
            pos: 1,
            line: 1,
        },
        Instruction {
            instruction_type: InstructionType::Push(2),
            pos: 1,
            line: 1,
        },
        Instruction {
            instruction_type: InstructionType::Push(3),
            pos: 1,
            line: 1,
        },
        Instruction {
            instruction_type: InstructionType::Rot,
            pos: 1,
            line: 1,
        },
        Instruction {
            instruction_type: InstructionType::Print,
            pos: 1,
            line: 1,
        },
        Instruction {
            instruction_type: InstructionType::Print,
            pos: 1,
            line: 1,
        },
        Instruction {
            instruction_type: InstructionType::Print,
            pos: 1,
            line: 1,
        },
    ];
    let stack = VecStack::new();
    let mut machine = StackMachine::new(stack);
    let result = machine.execute(program);
    assert_eq!(result, Ok(vec![1, 3, 2]));
}

#[test]
fn over_operation() {
    let program = vec![
        Instruction {
            instruction_type: InstructionType::Push(1),
            pos: 1,
            line: 1,
        },
        Instruction {
            instruction_type: InstructionType::Push(2),
            pos: 1,
            line: 1,
        },
        Instruction {
            instruction_type: InstructionType::Over,
            pos: 1,
            line: 1,
        },
        Instruction {
            instruction_type: InstructionType::Print,
            pos: 1,
            line: 1,
        },
        Instruction {
            instruction_type: InstructionType::Print,
            pos: 1,
            line: 1,
        },
        Instruction {
            instruction_type: InstructionType::Print,
            pos: 1,
            line: 1,
        },
    ];
    let stack = VecStack::new();
    let mut machine = StackMachine::new(stack);
    let result = machine.execute(program);
    assert_eq!(result, Ok(vec![1, 2, 1]));
}

#[test]
fn nip_operation() {
    let program = vec![
        Instruction {
            instruction_type: InstructionType::Push(0),
            pos: 1,
            line: 1,
        },
        Instruction {
            instruction_type: InstructionType::Push(1),
            pos: 1,
            line: 1,
        },
        Instruction {
            instruction_type: InstructionType::Push(2),
            pos: 1,
            line: 1,
        },
        Instruction {
            instruction_type: InstructionType::Nip,
            pos: 1,
            line: 1,
        },
        Instruction {
            instruction_type: InstructionType::Print,
            pos: 1,
            line: 1,
        },
        Instruction {
            instruction_type: InstructionType::Print,
            pos: 1,
            line: 1,
        },
    ];
    let stack = VecStack::new();
    let mut machine = StackMachine::new(stack);
    let result = machine.execute(program);
    assert_eq!(result, Ok(vec![2, 0]));
}

#[test]
fn stack_machine_test_add() {
    let stack = VecStack::new();
    let mut machine = StackMachine::new(stack);
    machine.push(1);
    machine.push(2);
    let _ = machine.add(&Instruction {
        instruction_type: InstructionType::Add,
        pos: 1,
        line: 1,
    });
    assert_eq!(*machine.0.peek().unwrap(), 3);
    assert_eq!(machine.0.size(), 1)
}
