//! A resolved program: the instruction list and the function table.

use crate::function_table::FunctionTable;
use crate::parser::{Instruction, InstructionType};
use vstd::prelude::*;

verus! {

/// The instructions of a program and the entry point of each function
/// declared in it.
#[derive(Debug)]
pub struct Program {
    pub instructions: Vec<Instruction>,
    pub functions: FunctionTable,
}

/// The mathematical content of a [`Program`].
pub struct ProgramView {
    pub instructions: Seq<Instruction>,
    pub functions: Map<Seq<char>, usize>,
}

impl View for Program {
    type V = ProgramView;

    open spec fn view(&self) -> ProgramView {
        ProgramView { instructions: self.instructions@, functions: self.functions@ }
    }
}

/// Whether the instruction at `i` points where its kind says it must:
/// a `While` forward at the `EndWhile` that points back at it, an `EndWhile`
/// backward at its `While`, an `If` forward at an `Else`, an `Else` forward
/// at an `EndIf`, and a `Call` at an index no greater than its own.
pub open spec fn settled(instructions: Seq<Instruction>, i: int) -> bool {
    match instructions[i].instruction_type {
        InstructionType::While(target) => i < target < instructions.len()
            && instructions[target as int].instruction_type == InstructionType::EndWhile(
            i as usize,
        ),
        InstructionType::EndWhile(target) => target < i
            && instructions[target as int].instruction_type == InstructionType::While(i as usize),
        InstructionType::If(target) => i < target < instructions.len()
            && instructions[target as int].instruction_type is Else,
        InstructionType::Else(target) => i < target < instructions.len()
            && instructions[target as int].instruction_type is EndIf,
        InstructionType::Call(entry) => entry <= i,
        _ => true,
    }
}

/// Whether every jump of the list is settled: each target is an index of the
/// list, and following the targets from an opener leads to its closer.
pub open spec fn jumps_resolved(instructions: Seq<Instruction>) -> bool {
    forall|i: int| 0 <= i < instructions.len() ==> settled(instructions, i)
}

/// The target of an instruction that opens a block: of a `While`, an `If` or
/// an `Else`.
pub open spec fn forward_target(kind: InstructionType) -> Option<usize> {
    match kind {
        InstructionType::While(target) => Some(target),
        InstructionType::If(target) => Some(target),
        InstructionType::Else(target) => Some(target),
        _ => None,
    }
}

/// Whether the instruction at `i` opens a block and `j` lies strictly
/// between it and its target.
pub open spec fn encloses(instructions: Seq<Instruction>, i: int, j: int) -> bool {
    forward_target(instructions[i].instruction_type) matches Some(target) && i < j < target
}

/// Whether the blocks that open at `i` and at `j` cross: the one at `j`
/// opens inside the one at `i` and does not end inside it.
pub open spec fn crosses(instructions: Seq<Instruction>, i: int, j: int) -> bool {
    &&& encloses(instructions, i, j)
    &&& forward_target(instructions[j].instruction_type) matches Some(inner)
    &&& inner >= forward_target(instructions[i].instruction_type).unwrap()
}

/// Whether the blocks of the list nest: a block that opens inside another
/// one ends inside it. An `If` and its `Else` open two blocks that meet at
/// the `Else`.
pub open spec fn properly_nested(instructions: Seq<Instruction>) -> bool {
    forall|i: int, j: int|
        0 <= i < instructions.len() && 0 <= j < instructions.len() ==> !#[trigger] crosses(
            instructions,
            i,
            j,
        )
}

/// Whether the instruction at `j` opens a block that ends at `i`.
pub open spec fn points_at(instructions: Seq<Instruction>, j: int, i: int) -> bool {
    0 <= j < i && forward_target(instructions[j].instruction_type) == Some(i as usize)
}

/// Whether the instruction at `i`, where it ends a conditional or one of
/// its branches, has its opener: an `Else` is the target of an `If` before
/// it, and an `EndIf` is the target of an `Else` before it.
pub open spec fn has_opener(instructions: Seq<Instruction>, i: int) -> bool {
    match instructions[i].instruction_type {
        InstructionType::Else(_) => exists|j: int| #[trigger]
            points_at(instructions, j, i) && instructions[j].instruction_type is If,
        InstructionType::EndIf => exists|j: int| #[trigger]
            points_at(instructions, j, i) && instructions[j].instruction_type is Else,
        _ => true,
    }
}

/// Whether every `Else` and every `EndIf` of the list has its opener.
pub open spec fn closers_matched(instructions: Seq<Instruction>) -> bool {
    forall|i: int| 0 <= i < instructions.len() ==> #[trigger] has_opener(instructions, i)
}

/// In a list whose blocks nest, no two blocks end at the same instruction:
/// a closer has one opener at most.
pub proof fn law_one_opener_per_closer(instructions: Seq<Instruction>, j: int, k: int, i: int)
    requires
        instructions.len() <= usize::MAX,
        properly_nested(instructions),
        0 <= i < instructions.len(),
        points_at(instructions, j, i),
        points_at(instructions, k, i),
    ensures
        j == k,
{
    if j < k {
        assert(crosses(instructions, j, k));
    } else if k < j {
        assert(crosses(instructions, k, j));
    }
}

} // verus!
