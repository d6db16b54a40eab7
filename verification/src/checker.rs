//! A static estimate of stack depth for programs without control flow.

use crate::common::{Error, ErrorView, result_view};
use crate::parser::{Instruction, InstructionType};
use crate::stack_machine::{MachineState, Transition, apply, operands, run_steps};
use vstd::prelude::*;

verus! {

/// Whether the depth analysis covers this kind of instruction: it covers
/// everything but jumps, calls and returns.
pub open spec fn is_straight(kind: InstructionType) -> bool {
    !(kind is While || kind is EndWhile || kind is If || kind is Else || kind is EndIf
        || kind is Call || kind is Ret)
}

/// Whether the analysis covers every instruction of the program.
pub open spec fn straight_line(program: Seq<Instruction>) -> bool {
    forall|k: int| 0 <= k < program.len() ==> is_straight(#[trigger] program[k].instruction_type)
}

/// The depth that the analysis asks for before an instruction.
pub open spec fn required_depth(kind: InstructionType) -> int {
    match kind {
        InstructionType::Pop | InstructionType::Print | InstructionType::Dup => 1,
        InstructionType::Add
        | InstructionType::Sub
        | InstructionType::Mul
        | InstructionType::Div
        | InstructionType::Swap
        | InstructionType::Over
        | InstructionType::Nip => 2,
        InstructionType::Rot => 3,
        _ => 0,
    }
}

/// By how much the analysis takes an instruction to change the depth.
///
/// The shuffles count as leaving the depth as it is. That is true of `Swap`
/// and `Rot`; `Over` in fact adds a value and `Nip` removes one, so after
/// them the estimate is off by one.
pub open spec fn depth_change(kind: InstructionType) -> int {
    match kind {
        InstructionType::Push(_) | InstructionType::Dup => 1,
        InstructionType::Pop
        | InstructionType::Print
        | InstructionType::Add
        | InstructionType::Sub
        | InstructionType::Mul
        | InstructionType::Div => -1,
        _ => 0,
    }
}

/// The depth that the analysis assumes after the first `n` instructions of a
/// program that starts on an empty stack.
pub open spec fn depth_after(program: Seq<Instruction>, n: int) -> int
    decreases n,
{
    if n <= 0 {
        0
    } else {
        depth_after(program, n - 1) + depth_change(program[n - 1].instruction_type)
    }
}

/// Whether the analysis accepts the program: before each instruction the
/// assumed depth is at least the depth that the instruction asks for.
pub open spec fn depth_safe(program: Seq<Instruction>) -> bool {
    forall|k: int|
        0 <= k < program.len() ==> #[trigger] depth_after(program, k) >= required_depth(
            program[k].instruction_type,
        )
}

/// Whether the depth assumed before instruction `k` is less than the depth
/// that the instruction asks for.
pub open spec fn is_short(program: Seq<Instruction>, k: int) -> bool {
    depth_after(program, k) < required_depth(program[k].instruction_type)
}

/// The index of the first instruction at or behind `from` that the
/// analysis finds short of values; the length of the program if there is
/// none.
pub open spec fn first_short(program: Seq<Instruction>, from: int) -> int
    decreases program.len() - from,
{
    if from < 0 || from >= program.len() {
        program.len() as int
    } else if is_short(program, from) {
        from
    } else {
        first_short(program, from + 1)
    }
}

/// The error of the analysis at the instruction `at`: it names the source
/// word of the instruction and its place.
pub open spec fn short_of_values(at: Instruction) -> ErrorView {
    ErrorView::StaticCheck {
        word: at.instruction_type.spec_text(),
        pos: at.pos,
        line: at.line,
        comment: Seq::empty(),
    }
}

/// What the analysis says of a program: nothing where it accepts it, and
/// otherwise the error at the first instruction that it finds short of
/// values.
pub open spec fn check_spec(program: Seq<Instruction>) -> Result<(), ErrorView> {
    let k = first_short(program, 0);
    if k < program.len() {
        Err(short_of_values(program[k]))
    } else {
        Ok(())
    }
}

/// Whether the depth analysis covers every instruction of `program`.
pub fn is_straight_line(program: &Vec<Instruction>) -> (covered: bool)
    ensures
        covered == straight_line(program@),
{
    let mut i: usize = 0;
    while i < program.len()
        invariant
            i <= program@.len(),
            forall|k: int| 0 <= k < i ==> is_straight(#[trigger] program@[k].instruction_type),
        decreases program@.len() - i,
    {
        match program[i].instruction_type {
            InstructionType::While(_)
            | InstructionType::EndWhile(_)
            | InstructionType::If(_)
            | InstructionType::Else(_)
            | InstructionType::EndIf
            | InstructionType::Call(_)
            | InstructionType::Ret => {
                return false;
            },
            _ => {},
        }
        i += 1;
    }
    true
}

/// Checks, without running it, that a program without control flow never
/// finds the stack short of values, as far as the depth estimate can tell.
///
/// It succeeds exactly when [`depth_safe`] holds of the program, and fails
/// at the first instruction for which the assumed depth is too small.
pub fn check_stack_safety(program: &Vec<Instruction>) -> (r: Result<(), Error>)
    requires
        straight_line(program@),
    ensures
        result_view(r) == check_spec(program@),
        r is Ok <==> depth_safe(program@),
{
    let mut stack_size: usize = 0;
    let mut i: usize = 0;
    while i < program.len()
        invariant
            straight_line(program@),
            i <= program@.len(),
            0 <= stack_size <= i,
            stack_size == depth_after(program@, i as int),
            forall|k: int|
                0 <= k < i ==> #[trigger] depth_after(program@, k) >= required_depth(
                    program@[k].instruction_type,
                ),
            first_short(program@, i as int) == first_short(program@, 0),
        decreases program@.len() - i,
    {
        let at = &program[i];
        let kind = at.instruction_type;
        assert(is_straight(program@[i as int].instruction_type));
        let needed: usize = match kind {
            InstructionType::Pop | InstructionType::Print | InstructionType::Dup => 1,
            InstructionType::Add
            | InstructionType::Sub
            | InstructionType::Mul
            | InstructionType::Div
            | InstructionType::Swap
            | InstructionType::Over
            | InstructionType::Nip => 2,
            InstructionType::Rot => 3,
            _ => 0,
        };
        if stack_size < needed {
            assert(is_short(program@, i as int));
            return Err(
                Error::StaticCheck {
                    word: kind.text(),
                    pos: at.pos,
                    line: at.line,
                    comment: String::new(),
                },
            );
        }
        match kind {
            InstructionType::Push(_) | InstructionType::Dup => {
                stack_size += 1;
            },
            InstructionType::Pop
            | InstructionType::Print
            | InstructionType::Add
            | InstructionType::Sub
            | InstructionType::Mul
            | InstructionType::Div => {
                stack_size -= 1;
            },
            _ => {},
        }
        i += 1;
    }
    Ok(())
}

/// From instruction `state.pc` on, an accepted program without `Nip` never
/// finds the stack short of values, provided that the stack holds at least
/// as many values as the analysis assumes at that point.
proof fn lemma_depth_safe_from(program: Seq<Instruction>, state: MachineState, fuel: nat)
    requires
        straight_line(program),
        depth_safe(program),
        forall|k: int|
            0 <= k < program.len() ==> !(#[trigger] program[k].instruction_type is Nip),
        0 <= state.pc <= program.len(),
        state.stack.len() >= depth_after(program, state.pc),
        fuel >= program.len() - state.pc,
    ensures
        match run_steps(program, state, fuel).outcome {
            Ok(_) => true,
            Err(e) => e is DivisionByZero,
        },
    decreases fuel,
{
    if state.pc < program.len() {
        let at = program[state.pc];
        let kind = at.instruction_type;
        assert(is_straight(kind));
        assert(depth_after(program, state.pc) >= required_depth(kind));
        assert(depth_after(program, state.pc + 1) == depth_after(program, state.pc) + depth_change(
            kind,
        ));
        assert(operands(kind) == required_depth(kind));
        match state.step(at) {
            Transition::Next(next) => {
                assert(next.pc == state.pc + 1);
                assert(next.stack == apply(kind, state.stack));
                assert(next.stack.len() >= state.stack.len() + depth_change(kind));
                lemma_depth_safe_from(program, next, (fuel - 1) as nat);
            },
            Transition::Return => {},
            Transition::Fault(error, stack) => {},
        }
    }
}

/// What the analysis is good for: a program without control flow and
/// without `Nip` that it accepts, run on an empty stack with at least one
/// step for each instruction, never finds the stack short of values. It
/// comes to its end, or stops at a division by zero.
///
/// `Nip` is left out because the analysis counts it as keeping the depth
/// although it removes a value.
pub proof fn law_accepted_programs_do_not_underflow(program: Seq<Instruction>, fuel: nat)
    requires
        straight_line(program),
        depth_safe(program),
        forall|k: int|
            0 <= k < program.len() ==> !(#[trigger] program[k].instruction_type is Nip),
        fuel >= program.len(),
    ensures
        match run_steps(program, MachineState::start(Seq::empty(), 0), fuel).outcome {
            Ok(_) => true,
            Err(e) => e is DivisionByZero,
        },
{
    lemma_depth_safe_from(program, MachineState::start(Seq::empty(), 0), fuel);
}

} // verus!
