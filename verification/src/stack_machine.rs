//! The machine that interprets a resolved instruction list.

use crate::common::{Error, ErrorView, result_view};
use crate::parser::{Instruction, InstructionType};
use crate::program::{Program, jumps_resolved, settled};
use crate::stack::Stack;
use vstd::prelude::*;
use vstd::wrapping::i32_specs::{wrapping_add, wrapping_mul, wrapping_sub};

verus! {

/// The quotient of `b` by `a`, rounded toward zero.
pub open spec fn truncated_quotient(b: int, a: int) -> int
    recommends
        a != 0,
{
    if b >= 0 && a > 0 {
        b / a
    } else if b < 0 && a < 0 {
        (-b) / (-a)
    } else if b < 0 {
        -((-b) / a)
    } else {
        -(b / (-a))
    }
}

/// The quotient of `b` by `a`, rounded toward zero, as a 32-bit value: the
/// one quotient that does not fit, of the least value by -1, wraps around to
/// the least value.
pub open spec fn wrapping_div(b: i32, a: i32) -> i32
    recommends
        a != 0,
{
    if b == i32::MIN && a == -1 {
        i32::MIN
    } else {
        truncated_quotient(b as int, a as int) as i32
    }
}

/// A quotient of nonnegative numbers lies between zero and the dividend.
proof fn lemma_quotient_bounds(x: int, d: int)
    requires
        x >= 0,
        d > 0,
    ensures
        0 <= x / d <= x,
        d >= 2 && x > 0 ==> x / d < x,
{
    assert(0 <= x / d <= x) by (nonlinear_arith)
        requires
            x >= 0,
            d > 0,
    ;
    assert(d >= 2 && x > 0 ==> x / d < x) by (nonlinear_arith)
        requires
            x >= 0,
            d > 0,
    ;
}

/// The quotient rounded toward zero fits in 32 bits but for the least value
/// divided by -1.
proof fn lemma_truncated_quotient_fits(b: i32, a: i32)
    requires
        a != 0,
    ensures
        !(b == i32::MIN && a == -1) ==> i32::MIN <= truncated_quotient(b as int, a as int)
            <= i32::MAX,
        b == i32::MIN && a == -1 ==> truncated_quotient(b as int, a as int) == i32::MAX + 1,
{
    let x: int = if b >= 0 {
        b as int
    } else {
        -(b as int)
    };
    let d: int = if a > 0 {
        a as int
    } else {
        -(a as int)
    };
    lemma_quotient_bounds(x, d);
    if d == 1 {
        assert(x / 1 == x);
    }
}

/// How many values an instruction needs on the stack.
pub open spec fn operands(kind: InstructionType) -> nat {
    match kind {
        InstructionType::Pop | InstructionType::Print | InstructionType::Dup => 1,
        InstructionType::Add
        | InstructionType::Sub
        | InstructionType::Mul
        | InstructionType::Div
        | InstructionType::Swap
        | InstructionType::Over
        | InstructionType::Nip => 2,
        InstructionType::Rot => 3,
        InstructionType::While(_) | InstructionType::EndWhile(_) | InstructionType::If(_) => 1,
        _ => 0,
    }
}

/// The stack that an instruction leaves, given a stack `s` that holds at
/// least the values it needs. Below, `a` is the top of `s`, `b` the value
/// under it and `c` the value under that.
///
/// Arithmetic is that of 32-bit two's complement values: sums, differences
/// and products wrap around.
pub open spec fn apply(kind: InstructionType, s: Seq<i32>) -> Seq<i32>
    recommends
        s.len() >= operands(kind),
{
    let a = s[s.len() - 1];
    let b = s[s.len() - 2];
    let c = s[s.len() - 3];
    match kind {
        InstructionType::Push(n) => s.push(n),
        InstructionType::Pop | InstructionType::Print => s.take(s.len() - 1),
        InstructionType::Add => s.take(s.len() - 2).push(wrapping_add(a, b)),
        InstructionType::Sub => s.take(s.len() - 2).push(wrapping_sub(b, a)),
        InstructionType::Mul => s.take(s.len() - 2).push(wrapping_mul(a, b)),
        InstructionType::Div => s.take(s.len() - 2).push(wrapping_div(b, a)),
        InstructionType::Dup => s.push(a),
        InstructionType::Swap => s.take(s.len() - 2).push(a).push(b),
        InstructionType::Rot => s.take(s.len() - 3).push(b).push(a).push(c),
        InstructionType::Over => s.take(s.len() - 2).push(b).push(a).push(b),
        InstructionType::Nip => s.take(s.len() - 2).push(a),
        _ => s,
    }
}

/// The error of an instruction that found the stack short of values.
pub open spec fn stack_empty(at: Instruction) -> ErrorView {
    ErrorView::StackEmpty { pos: at.pos, line: at.line }
}

/// The error of a division by zero.
pub open spec fn division_by_zero(at: Instruction) -> ErrorView {
    ErrorView::DivisionByZero { pos: at.pos, line: at.line }
}

/// The error of a run that was cut short before the instruction `at`.
pub open spec fn step_limit(at: Instruction) -> ErrorView {
    ErrorView::StepLimit { pos: at.pos, line: at.line }
}

/// What an instruction that only touches the stack does: whether it
/// succeeds, and the stack it leaves either way.
pub struct Effect {
    pub result: Result<(), ErrorView>,
    pub stack: Seq<i32>,
}

/// The effect of the instruction of kind `kind`, placed at `at`, on the
/// stack `s`.
///
/// Short of values, it fails with the stack emptied: the values that were
/// there have been taken off one by one. A division by zero fails with both
/// operands taken off. Otherwise it leaves what [`apply`] says.
pub open spec fn effect(kind: InstructionType, at: Instruction, s: Seq<i32>) -> Effect {
    if s.len() < operands(kind) {
        Effect { result: Err(stack_empty(at)), stack: Seq::empty() }
    } else if kind is Div && s.last() == 0 {
        Effect { result: Err(division_by_zero(at)), stack: s.take(s.len() - 2) }
    } else {
        Effect { result: Ok(()), stack: apply(kind, s) }
    }
}

/// The state of a run between two instructions.
pub struct MachineState {
    /// The value stack, the top last.
    pub stack: Seq<i32>,
    /// The indices of the calls that have not returned yet, the latest last.
    pub calls: Seq<usize>,
    /// The values printed so far.
    pub output: Seq<i32>,
    /// The index of the instruction to execute next.
    pub pc: int,
}

/// What one instruction makes of a state.
pub enum Transition {
    /// The run goes on in this state.
    Next(MachineState),
    /// The run is over: a `Ret` found no call to return to.
    Return,
    /// The instruction failed with this error and left this stack.
    Fault(ErrorView, Seq<i32>),
}

/// How a run ended: with the printed values or with an error, and the stack
/// it left behind.
pub struct RunEnd {
    pub outcome: Result<Seq<i32>, ErrorView>,
    pub stack: Seq<i32>,
}

impl MachineState {
    /// The state in which a run starts: at `entry`, with nothing printed
    /// and no call pending.
    pub open spec fn start(stack: Seq<i32>, entry: int) -> MachineState {
        MachineState { stack, calls: Seq::empty(), output: Seq::empty(), pc: entry }
    }

    /// The state with `pc` as the next instruction.
    pub open spec fn goto(self, pc: int) -> MachineState {
        MachineState { pc, ..self }
    }

    /// The state after the instruction `at`, which stands at `self.pc`.
    ///
    /// An instruction that fails on the stack ends the run with its error.
    /// Otherwise:
    /// - `Print` takes the top value off and appends it to the output;
    /// - `While` and `If` leave the stack alone and, where its top is zero,
    ///   go on behind their target;
    /// - `EndWhile` leaves the stack alone and, where its top is not zero,
    ///   goes on behind its target;
    /// - `Else` goes on behind its target;
    /// - `Call` remembers its own index and goes on at its target;
    /// - `Ret` goes on behind the latest call still pending, and ends the
    ///   run where there is none;
    /// - every other instruction changes the stack as [`apply`] says.
    /// But for these jumps, the run goes on at the next index.
    pub open spec fn step(self, at: Instruction) -> Transition {
        let e = effect(at.instruction_type, at, self.stack);
        match e.result {
            Err(error) => Transition::Fault(error, e.stack),
            Ok(()) => match at.instruction_type {
                InstructionType::Print => Transition::Next(
                    MachineState {
                        stack: e.stack,
                        output: self.output.push(self.stack.last()),
                        pc: self.pc + 1,
                        ..self
                    },
                ),
                InstructionType::While(target) | InstructionType::If(target) => Transition::Next(
                    self.goto(
                        if self.stack.last() == 0 {
                            target + 1
                        } else {
                            self.pc + 1
                        },
                    ),
                ),
                InstructionType::EndWhile(target) => Transition::Next(
                    self.goto(
                        if self.stack.last() != 0 {
                            target + 1
                        } else {
                            self.pc + 1
                        },
                    ),
                ),
                InstructionType::Else(target) => Transition::Next(self.goto(target + 1)),
                InstructionType::Call(entry) => Transition::Next(
                    MachineState {
                        calls: self.calls.push(self.pc as usize),
                        pc: entry as int,
                        ..self
                    },
                ),
                InstructionType::Ret => if self.calls.len() == 0 {
                    Transition::Return
                } else {
                    Transition::Next(
                        MachineState {
                            calls: self.calls.drop_last(),
                            pc: self.calls.last() + 1,
                            ..self
                        },
                    )
                },
                _ => Transition::Next(MachineState { stack: e.stack, pc: self.pc + 1, ..self }),
            },
        }
    }
}

/// The end of the run of `program` that starts in `state` and may take at
/// most `fuel` steps.
///
/// The run is over, with the values printed so far, once the next index
/// lies outside the program or a `Ret` finds no pending call. It fails with
/// the error of the first instruction that fails, and with a step-limit
/// error at the instruction that would have been the next when the fuel ran
/// out.
pub open spec fn run_steps(program: Seq<Instruction>, state: MachineState, fuel: nat) -> RunEnd
    decreases fuel,
{
    if state.pc < 0 || state.pc >= program.len() {
        RunEnd { outcome: Ok(state.output), stack: state.stack }
    } else if fuel == 0 {
        RunEnd { outcome: Err(step_limit(program[state.pc])), stack: state.stack }
    } else {
        match state.step(program[state.pc]) {
            Transition::Next(next) => run_steps(program, next, (fuel - 1) as nat),
            Transition::Return => RunEnd { outcome: Ok(state.output), stack: state.stack },
            Transition::Fault(error, stack) => RunEnd { outcome: Err(error), stack },
        }
    }
}

/// The result of a run with the mathematical content of its values or
/// error.
pub open spec fn run_result_view(r: Result<Vec<i32>, Error>) -> Result<Seq<i32>, ErrorView> {
    match r {
        Ok(printed) => Ok(printed@),
        Err(e) => Err(e@),
    }
}

/// The index as the machine keeps it: as it is while it fits, and the
/// greatest index otherwise, which lies outside every program.
pub open spec fn clamp_index(pc: int) -> usize {
    if pc <= usize::MAX {
        pc as usize
    } else {
        usize::MAX
    }
}

/// The index behind `target`.
fn behind(target: usize) -> (next: usize)
    ensures
        next == clamp_index(target + 1),
{
    if target < usize::MAX {
        target + 1
    } else {
        usize::MAX
    }
}

/// The steps that [`StackMachine::execute`] and [`StackMachine::run`] allow
/// a program.
pub const STEP_BUDGET: u64 = u64::MAX;

/// A stack machine over any stack of 32-bit values.
pub struct StackMachine<T: Stack<i32>>(pub T);

impl<T: Stack<i32>> StackMachine<T> {
    /// The values on the machine's stack, the top last.
    pub open spec fn values(&self) -> Seq<i32> {
        self.0.items()
    }

    /// A machine that computes on `stack`.
    pub fn new(stack: T) -> (machine: Self)
        ensures
            machine.0 == stack,
    {
        Self(stack)
    }

    /// Puts `n` on the stack.
    pub fn push(&mut self, n: i32)
        ensures
            final(self).values() == old(self).values().push(n),
    {
        self.0.push(n);
    }

    /// Takes the top value off the stack; fails at `i` where there is none.
    pub fn pop(&mut self, i: &Instruction) -> (r: Result<i32, Error>)
        ensures
            old(self).values().len() > 0 ==> {
                &&& r == Ok::<i32, Error>(old(self).values().last())
                &&& final(self).values() == old(self).values().drop_last()
            },
            old(self).values().len() == 0 ==> {
                &&& r is Err
                &&& r->Err_0@ == stack_empty(*i)
                &&& final(self).values() == old(self).values()
            },
    {
        match self.0.pop() {
            Some(n) => Ok(n),
            None => Err(Error::StackEmpty { pos: i.pos, line: i.line }),
        }
    }

    /// Looks at the top value of the stack; fails at `i` where there is none.
    pub fn peek(&mut self, i: &Instruction) -> (r: Result<&i32, Error>)
        ensures
            final(self).values() == old(self).values(),
            old(self).values().len() > 0 ==> r == Ok::<&i32, Error>(&old(self).values().last()),
            old(self).values().len() == 0 ==> r is Err && r->Err_0@ == stack_empty(*i),
    {
        match self.0.peek() {
            Some(n) => Ok(n),
            None => Err(Error::StackEmpty { pos: i.pos, line: i.line }),
        }
    }

    /// Replaces the two top values by their sum.
    pub fn add(&mut self, i: &Instruction) -> (r: Result<(), Error>)
        ensures
            result_view(r) == effect(InstructionType::Add, *i, old(self).values()).result,
            final(self).values() == effect(InstructionType::Add, *i, old(self).values()).stack,
    {
        let a = self.pop(i)?;
        let b = self.pop(i)?;
        self.push(a.wrapping_add(b));
        assert(self.values() =~= effect(InstructionType::Add, *i, old(self).values()).stack);
        Ok(())
    }

    /// Replaces the two top values by the second minus the top.
    pub fn sub(&mut self, i: &Instruction) -> (r: Result<(), Error>)
        ensures
            result_view(r) == effect(InstructionType::Sub, *i, old(self).values()).result,
            final(self).values() == effect(InstructionType::Sub, *i, old(self).values()).stack,
    {
        let a = self.pop(i)?;
        let b = self.pop(i)?;
        self.push(b.wrapping_sub(a));
        assert(self.values() =~= effect(InstructionType::Sub, *i, old(self).values()).stack);
        Ok(())
    }

    /// Replaces the two top values by their product.
    pub fn mul(&mut self, i: &Instruction) -> (r: Result<(), Error>)
        ensures
            result_view(r) == effect(InstructionType::Mul, *i, old(self).values()).result,
            final(self).values() == effect(InstructionType::Mul, *i, old(self).values()).stack,
    {
        let a = self.pop(i)?;
        let b = self.pop(i)?;
        self.push(a.wrapping_mul(b));
        assert(self.values() =~= effect(InstructionType::Mul, *i, old(self).values()).stack);
        Ok(())
    }

    /// Puts a copy of the top value on the stack.
    pub fn dup(&mut self, i: &Instruction) -> (r: Result<(), Error>)
        ensures
            result_view(r) == effect(InstructionType::Dup, *i, old(self).values()).result,
            final(self).values() == effect(InstructionType::Dup, *i, old(self).values()).stack,
    {
        let a = self.pop(i)?;
        self.push(a);
        self.push(a);
        assert(self.values() =~= effect(InstructionType::Dup, *i, old(self).values()).stack);
        Ok(())
    }

    /// Exchanges the two top values.
    pub fn swap(&mut self, i: &Instruction) -> (r: Result<(), Error>)
        ensures
            result_view(r) == effect(InstructionType::Swap, *i, old(self).values()).result,
            final(self).values() == effect(InstructionType::Swap, *i, old(self).values()).stack,
    {
        let a = self.pop(i)?;
        let b = self.pop(i)?;
        self.push(a);
        self.push(b);
        assert(self.values() =~= effect(InstructionType::Swap, *i, old(self).values()).stack);
        Ok(())
    }

    /// Moves the third value from the top onto the top.
    pub fn rot(&mut self, i: &Instruction) -> (r: Result<(), Error>)
        ensures
            result_view(r) == effect(InstructionType::Rot, *i, old(self).values()).result,
            final(self).values() == effect(InstructionType::Rot, *i, old(self).values()).stack,
    {
        let a = self.pop(i)?;
        let b = self.pop(i)?;
        let c = self.pop(i)?;
        self.push(b);
        self.push(a);
        self.push(c);
        assert(self.values() =~= effect(InstructionType::Rot, *i, old(self).values()).stack);
        Ok(())
    }

    /// Puts a copy of the second value from the top on the stack.
    pub fn over(&mut self, i: &Instruction) -> (r: Result<(), Error>)
        ensures
            result_view(r) == effect(InstructionType::Over, *i, old(self).values()).result,
            final(self).values() == effect(InstructionType::Over, *i, old(self).values()).stack,
    {
        let a = self.pop(i)?;
        let b = self.pop(i)?;
        self.push(b);
        self.push(a);
        self.push(b);
        assert(self.values() =~= effect(InstructionType::Over, *i, old(self).values()).stack);
        Ok(())
    }

    /// Removes the second value from the top.
    pub fn nip(&mut self, i: &Instruction) -> (r: Result<(), Error>)
        ensures
            result_view(r) == effect(InstructionType::Nip, *i, old(self).values()).result,
            final(self).values() == effect(InstructionType::Nip, *i, old(self).values()).stack,
    {
        let a = self.pop(i)?;
        let b = self.pop(i)?;
        self.push(a);
        assert(self.values() =~= effect(InstructionType::Nip, *i, old(self).values()).stack);
        Ok(())
    }

    /// Replaces the two top values by the second divided by the top, rounded
    /// toward zero; fails where the top is zero.
    pub fn div(&mut self, i: &Instruction) -> (r: Result<(), Error>)
        ensures
            result_view(r) == effect(InstructionType::Div, *i, old(self).values()).result,
            final(self).values() == effect(InstructionType::Div, *i, old(self).values()).stack,
    {
        let a = self.pop(i)?;
        let b = self.pop(i)?;
        assert(self.values() =~= old(self).values().take(old(self).values().len() - 2));
        if a == 0 {
            return Err(Error::DivisionByZero { pos: i.pos, line: i.line });
        }
        let quotient = match b.checked_div(a) {
            Some(q) => q,
            None => i32::MIN,
        };
        proof {
            lemma_truncated_quotient_fits(b, a);
            assert((b as int) * -1 == -(b as int));
            assert((a as int) * -1 == -(a as int));
        }
        assert(quotient == wrapping_div(b, a));
        self.push(quotient);
        assert(self.values() =~= apply(InstructionType::Div, old(self).values()));
        Ok(())
    }

    /// Executes the instruction at `pc`, and says where the run goes on:
    /// `None` where it is over.
    fn step(
        &mut self,
        program: &Vec<Instruction>,
        pc: usize,
        calls: &mut Vec<usize>,
        output: &mut Vec<i32>,
    ) -> (r: Result<Option<usize>, Error>)
        requires
            pc < program.len(),
            forall|k: int| 0 <= k < old(calls)@.len() ==> old(calls)@[k] < program.len(),
        ensures
            forall|k: int| 0 <= k < final(calls)@.len() ==> final(calls)@[k] < program@.len(),
            match (MachineState {
                stack: old(self).values(),
                calls: old(calls)@,
                output: old(output)@,
                pc: pc as int,
            }).step(program@[pc as int]) {
                Transition::Next(next) => {
                    &&& r matches Ok(Some(index))
                    &&& index == clamp_index(next.pc)
                    &&& next.pc >= 0
                    &&& final(self).values() == next.stack
                    &&& final(calls)@ == next.calls
                    &&& final(output)@ == next.output
                },
                Transition::Return => {
                    &&& r matches Ok(None)
                    &&& final(self).values() == old(self).values()
                    &&& final(output)@ == old(output)@
                },
                Transition::Fault(error, stack) => {
                    &&& r matches Err(e)
                    &&& e@ == error
                    &&& final(self).values() == stack
                },
            },
    {
        let instruction = &program[pc];
        match instruction.instruction_type {
            InstructionType::Push(n) => {
                self.push(n);
            },
            InstructionType::Pop => {
                self.pop(instruction)?;
            },
            InstructionType::Add => {
                self.add(instruction)?;
            },
            InstructionType::Sub => {
                self.sub(instruction)?;
            },
            InstructionType::Mul => {
                self.mul(instruction)?;
            },
            InstructionType::Div => {
                self.div(instruction)?;
            },
            InstructionType::Print => {
                let value = self.pop(instruction)?;
                output.push(value);
            },
            InstructionType::Dup => {
                self.dup(instruction)?;
            },
            InstructionType::Swap => {
                self.swap(instruction)?;
            },
            InstructionType::Rot => {
                self.rot(instruction)?;
            },
            InstructionType::Over => {
                self.over(instruction)?;
            },
            InstructionType::Nip => {
                self.nip(instruction)?;
            },
            InstructionType::While(target) => {
                let value = self.peek(instruction)?;
                if *value == 0 {
                    return Ok(Some(behind(target)));
                }
            },
            InstructionType::EndWhile(target) => {
                let value = self.peek(instruction)?;
                if *value != 0 {
                    return Ok(Some(behind(target)));
                }
            },
            InstructionType::If(target) => {
                let value = self.peek(instruction)?;
                if *value == 0 {
                    return Ok(Some(behind(target)));
                }
            },
            InstructionType::Else(target) => {
                return Ok(Some(behind(target)));
            },
            InstructionType::EndIf => {},
            InstructionType::Call(entry) => {
                calls.push(pc);
                return Ok(Some(entry));
            },
            InstructionType::Ret => {
                match calls.pop() {
                    Some(call) => {
                        assert(call == old(calls)@[old(calls)@.len() - 1]);
                        return Ok(Some(call + 1));
                    },
                    None => {
                        return Ok(None);
                    },
                }
            },
        }
        Ok(Some(pc + 1))
    }

    /// Takes every value off the stack.
    pub fn clear(&mut self)
        ensures
            final(self).values() == Seq::<i32>::empty(),
    {
        while !self.0.is_empty()
            decreases self.values().len(),
        {
            self.0.pop();
        }
        assert(self.values() =~= Seq::<i32>::empty());
    }

    /// Runs `program` on the stack as it is, from the instruction at
    /// `entry` and for at most `max_steps` steps.
    fn run_from(&mut self, program: &Vec<Instruction>, entry: usize, max_steps: u64) -> (r: Result<
        Vec<i32>,
        Error,
    >)
        ensures
            ({
                let end = run_steps(
                    program@,
                    MachineState::start(old(self).values(), entry as int),
                    max_steps as nat,
                );
                &&& match r {
                    Ok(printed) => end.outcome == Ok::<Seq<i32>, ErrorView>(printed@),
                    Err(e) => end.outcome == Err::<Seq<i32>, ErrorView>(e@),
                }
                &&& final(self).values() == end.stack
            }),
    {
        let mut calls: Vec<usize> = Vec::new();
        let mut output: Vec<i32> = Vec::new();
        let mut pc: usize = entry;
        let mut fuel: u64 = max_steps;
        let ghost begin = MachineState::start(old(self).values(), entry as int);
        let ghost mut state = begin;
        while pc < program.len()
            invariant
                begin == MachineState::start(old(self).values(), entry as int),
                state.stack == self.values(),
                state.calls == calls@,
                state.output == output@,
                state.pc >= 0,
                pc == clamp_index(state.pc),
                forall|k: int| 0 <= k < calls@.len() ==> calls@[k] < program@.len(),
                run_steps(program@, state, fuel as nat) == run_steps(
                    program@,
                    begin,
                    max_steps as nat,
                ),
            decreases fuel,
        {
            if fuel == 0 {
                let at = &program[pc];
                return Err(Error::StepLimit { pos: at.pos, line: at.line });
            }
            let ghost before = state;
            assert(before == MachineState {
                stack: self.values(),
                calls: calls@,
                output: output@,
                pc: pc as int,
            });
            match self.step(program, pc, &mut calls, &mut output) {
                Ok(Some(next)) => {
                    proof {
                        state = before.step(program@[pc as int])->Next_0;
                    }
                    pc = next;
                },
                Ok(None) => {
                    return Ok(output);
                },
                Err(e) => {
                    return Err(e);
                },
            }
            fuel -= 1;
        }
        Ok(output)
    }

    /// Runs `program` from the instruction at `entry` for at most
    /// `max_steps` steps and returns the values it printed.
    ///
    /// Every run has a value stack and a call stack of its own: it starts
    /// with both empty, whatever the machine held before, and the machine's
    /// stack is empty once it is over. The result is that of [`run_steps`].
    pub fn execute_bounded(
        &mut self,
        program: &Vec<Instruction>,
        entry: usize,
        max_steps: u64,
    ) -> (r: Result<Vec<i32>, Error>)
        ensures
            run_result_view(r) == run_steps(
                program@,
                MachineState::start(Seq::empty(), entry as int),
                max_steps as nat,
            ).outcome,
            final(self).values() == Seq::<i32>::empty(),
    {
        self.clear();
        let r = self.run_from(program, entry, max_steps);
        self.clear();
        r
    }

    /// Runs the instruction list from its first instruction and returns the
    /// values it printed, in the order in which it printed them.
    ///
    /// The run starts on an empty stack, may take [`STEP_BUDGET`] steps, and
    /// leaves the machine's stack empty.
    pub fn execute(&mut self, program: Vec<Instruction>) -> (r: Result<Vec<i32>, Error>)
        ensures
            run_result_view(r) == run_steps(
                program@,
                MachineState::start(Seq::empty(), 0),
                STEP_BUDGET as nat,
            ).outcome,
            final(self).values() == Seq::<i32>::empty(),
    {
        self.execute_bounded(&program, 0, STEP_BUDGET)
    }

    /// Runs `program` from the entry point of its function `main` and
    /// returns the values it printed.
    ///
    /// Without a `main` nothing is executed and the machine stays as it is.
    /// Otherwise the run starts on an empty stack, may take [`STEP_BUDGET`]
    /// steps, and leaves the machine's stack empty.
    pub fn run(&mut self, program: &Program) -> (r: Result<Vec<i32>, Error>)
        ensures
            !program@.functions.contains_key("main"@) ==> {
                &&& r matches Err(e)
                &&& e@ == (ErrorView::FunctionNotFound { word: "main"@, pos: 0, line: 0 })
                &&& final(self).values() == old(self).values()
            },
            program@.functions.contains_key("main"@) ==> {
                &&& run_result_view(r) == run_steps(
                    program@.instructions,
                    MachineState::start(Seq::empty(), program@.functions["main"@] as int),
                    STEP_BUDGET as nat,
                ).outcome
                &&& final(self).values() == Seq::<i32>::empty()
            },
    {
        match program.functions.get("main") {
            Some(entry) => self.execute_bounded(&program.instructions, *entry, STEP_BUDGET),
            None => Err(Error::FunctionNotFound { word: "main".to_string(), pos: 0, line: 0 }),
        }
    }
}

/// A program that pushes a value and prints it prints exactly that value,
/// and leaves the stack as it found it.
pub proof fn law_push_print(push: Instruction, print: Instruction, stack: Seq<i32>, fuel: nat)
    requires
        push.instruction_type is Push,
        print.instruction_type is Print,
        fuel >= 2,
    ensures
        run_steps(seq![push, print], MachineState::start(stack, 0), fuel) == (RunEnd {
            outcome: Ok(seq![push.instruction_type->Push_0]),
            stack,
        }),
{
    let program = seq![push, print];
    let n = push.instruction_type->Push_0;
    let s0 = MachineState::start(stack, 0);
    let s1 = MachineState { stack: stack.push(n), pc: 1, ..s0 };
    let s2 = MachineState { stack, output: seq![n], pc: 2, ..s0 };
    assert(s0.step(program[0]) == Transition::Next(s1));
    assert(stack.push(n).take(stack.len() as int) =~= stack);
    assert(Seq::<i32>::empty().push(n) =~= seq![n]);
    assert(s1.step(program[1]) == Transition::Next(s2));
    assert(run_steps(program, s2, (fuel - 2) as nat) == RunEnd { outcome: Ok(seq![n]), stack });
    assert(run_steps(program, s1, (fuel - 1) as nat) == run_steps(
        program,
        s2,
        (fuel - 2) as nat,
    ));
}

/// The state after two pushes onto `stack`, the run having started at 0.
spec fn pushed_two(stack: Seq<i32>, x: i32, y: i32) -> MachineState {
    MachineState { stack: stack.push(x).push(y), pc: 2, ..MachineState::start(stack, 0) }
}

/// A program of two pushes, one instruction on both values and a print
/// prints what that instruction leaves on top of the two values.
proof fn lemma_binary_print(program: Seq<Instruction>, stack: Seq<i32>, fuel: nat)
    requires
        program.len() == 4,
        program[0].instruction_type is Push,
        program[1].instruction_type is Push,
        program[2].instruction_type is Add || program[2].instruction_type is Sub
            || program[2].instruction_type is Mul || program[2].instruction_type is Div,
        program[2].instruction_type is Div ==> program[1].instruction_type->Push_0 != 0,
        program[3].instruction_type is Print,
        fuel >= 4,
    ensures
        run_steps(program, MachineState::start(stack, 0), fuel) == (RunEnd {
            outcome: Ok(
                seq![
                    apply(
                        program[2].instruction_type,
                        seq![
                            program[0].instruction_type->Push_0,
                            program[1].instruction_type->Push_0,
                        ],
                    ).last(),
                ],
            ),
            stack,
        }),
{
    let x = program[0].instruction_type->Push_0;
    let y = program[1].instruction_type->Push_0;
    let kind = program[2].instruction_type;
    let result = apply(kind, seq![x, y]).last();
    let s0 = MachineState::start(stack, 0);
    let s1 = MachineState { stack: stack.push(x), pc: 1, ..s0 };
    let s2 = pushed_two(stack, x, y);
    let s3 = MachineState { stack: stack.push(result), pc: 3, ..s0 };
    let s4 = MachineState { stack, output: seq![result], pc: 4, ..s0 };
    assert(s0.step(program[0]) == Transition::Next(s1));
    assert(s1.step(program[1]) == Transition::Next(s2));
    assert(s2.stack.take(s2.stack.len() - 2) =~= stack);
    assert(seq![x, y].take(0) =~= Seq::<i32>::empty());
    assert(apply(kind, s2.stack) =~= stack.push(result));
    assert(s2.step(program[2]) == Transition::Next(s3));
    assert(stack.push(result).take(stack.len() as int) =~= stack);
    assert(Seq::<i32>::empty().push(result) =~= seq![result]);
    assert(s3.step(program[3]) == Transition::Next(s4));
    let end = RunEnd { outcome: Ok(seq![result]), stack };
    assert(run_steps(program, s4, (fuel - 4) as nat) == end);
    assert(run_steps(program, s3, (fuel - 3) as nat) == end);
    assert(run_steps(program, s2, (fuel - 2) as nat) == end);
    assert(run_steps(program, s1, (fuel - 1) as nat) == end);
}

/// Pushing `x`, pushing `y`, subtracting and printing prints `x - y`: the
/// value pushed last is what is taken away. The difference wraps around
/// where it does not fit in 32 bits.
pub proof fn law_sub_order(program: Seq<Instruction>, x: i32, y: i32, stack: Seq<i32>, fuel: nat)
    requires
        program.len() == 4,
        program[0].instruction_type == InstructionType::Push(x),
        program[1].instruction_type == InstructionType::Push(y),
        program[2].instruction_type is Sub,
        program[3].instruction_type is Print,
        fuel >= 4,
    ensures
        run_steps(program, MachineState::start(stack, 0), fuel) == (RunEnd {
            outcome: Ok(seq![wrapping_sub(x, y)]),
            stack,
        }),
        i32::MIN <= x - y <= i32::MAX ==> wrapping_sub(x, y) == x - y,
{
    lemma_binary_print(program, stack, fuel);
}

/// Pushing `x`, pushing `y`, dividing and printing prints `x / y` rounded
/// toward zero: the value pushed last is the divisor.
pub proof fn law_div_order(program: Seq<Instruction>, x: i32, y: i32, stack: Seq<i32>, fuel: nat)
    requires
        program.len() == 4,
        program[0].instruction_type == InstructionType::Push(x),
        program[1].instruction_type == InstructionType::Push(y),
        program[2].instruction_type is Div,
        program[3].instruction_type is Print,
        y != 0,
        fuel >= 4,
    ensures
        run_steps(program, MachineState::start(stack, 0), fuel) == (RunEnd {
            outcome: Ok(seq![wrapping_div(x, y)]),
            stack,
        }),
        !(x == i32::MIN && y == -1) ==> wrapping_div(x, y) == truncated_quotient(
            x as int,
            y as int,
        ),
{
    lemma_binary_print(program, stack, fuel);
    lemma_truncated_quotient_fits(x, y);
}

/// Sum and product do not depend on the order of the two values on the
/// stack.
pub proof fn law_add_mul_commute(stack: Seq<i32>, x: i32, y: i32)
    ensures
        apply(InstructionType::Add, stack.push(x).push(y)) == apply(
            InstructionType::Add,
            stack.push(y).push(x),
        ),
        apply(InstructionType::Mul, stack.push(x).push(y)) == apply(
            InstructionType::Mul,
            stack.push(y).push(x),
        ),
{
    let xy = stack.push(x).push(y);
    let yx = stack.push(y).push(x);
    assert(xy.take(xy.len() - 2) =~= stack);
    assert(yx.take(yx.len() - 2) =~= stack);
    assert((x as int) * (y as int) == (y as int) * (x as int)) by (nonlinear_arith);
}

/// In a program whose jumps are settled, a step keeps the run inside the
/// program: from an index of the list, with every pending call at an index
/// of the list, it leads to an index of the list or to the one right behind
/// it, and every pending call still is at an index of the list.
pub proof fn law_settled_jumps_stay_inside(program: Seq<Instruction>, state: MachineState)
    requires
        program.len() <= usize::MAX,
        jumps_resolved(program),
        0 <= state.pc < program.len(),
        forall|k: int| 0 <= k < state.calls.len() ==> state.calls[k] < program.len(),
    ensures
        state.step(program[state.pc]) matches Transition::Next(next) ==> {
            &&& 0 <= next.pc <= program.len()
            &&& forall|k: int| 0 <= k < next.calls.len() ==> next.calls[k] < program.len()
        },
{
    assert(settled(program, state.pc));
    if state.calls.len() > 0 {
        assert(state.calls[state.calls.len() - 1] < program.len());
    }
}

} // verus!
