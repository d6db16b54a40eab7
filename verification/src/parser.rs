//! Resolving a token list into a flat instruction list.
//!
//! Structured control flow (`while … end`, `if … else … end`) and function
//! calls become jump targets: the index of an instruction is its address.

use crate::common::{Error, ErrorView};
use crate::function_table::FunctionTable;
use crate::program::{
    Program, ProgramView, closers_matched, crosses, encloses, forward_target, has_opener,
    jumps_resolved, points_at, properly_nested, settled,
};
use crate::text::{decimal_digits, decimal_text, signed_to_string, unsigned_to_string};
use crate::tokenizer::{Token, TokenKind, TokenType, TokenView, token_views};
use vstd::prelude::*;
use vstd::string::*;

verus! {

/// What an instruction does. A `usize` payload is the index of another
/// instruction of the same list.
#[derive(Debug, PartialEq, Eq, Clone, Copy, Structural)]
pub enum InstructionType {
    Push(i32),
    Pop,
    Add,
    Sub,
    Mul,
    Div,
    Print,
    /// Carries the index of the `EndWhile` that closes the loop.
    While(usize),
    /// Carries the index of the `While` that opens the loop.
    EndWhile(usize),
    /// Carries the index of the `Else` of the same conditional.
    If(usize),
    /// Carries the index of the `EndIf` of the same conditional.
    Else(usize),
    EndIf,
    Dup,
    Swap,
    Rot,
    Over,
    Nip,
    /// Carries the index of the first instruction of the called function.
    Call(usize),
    Ret,
}

/// An instruction with the column and line of the token it came from.
#[derive(Debug, PartialEq, Eq, Clone, Copy, Structural)]
pub struct Instruction {
    pub instruction_type: InstructionType,
    pub pos: usize,
    pub line: usize,
}

impl InstructionType {
    /// The source word of the instruction.
    pub open spec fn spec_text(self) -> Seq<char> {
        match self {
            InstructionType::While(_) => "while"@,
            InstructionType::EndWhile(_) => "end"@,
            InstructionType::Push(n) => decimal_text(n as int),
            InstructionType::Pop => "pop"@,
            InstructionType::Add => "+"@,
            InstructionType::Sub => "-"@,
            InstructionType::Mul => "*"@,
            InstructionType::Div => "/"@,
            InstructionType::Print => "print"@,
            InstructionType::Dup => "dup"@,
            InstructionType::Swap => "swap"@,
            InstructionType::Rot => "rot"@,
            InstructionType::Over => "over"@,
            InstructionType::Nip => "nip"@,
            InstructionType::If(_) => "if"@,
            InstructionType::Else(_) => "else"@,
            InstructionType::EndIf => "end"@,
            InstructionType::Ret => "ret"@,
            InstructionType::Call(entry) => "call "@ + decimal_digits(entry as nat),
        }
    }

    /// The name of the variant, followed by its payload in parentheses where
    /// it has one.
    pub open spec fn spec_name(self) -> Seq<char> {
        match self {
            InstructionType::Push(n) => "Push("@ + decimal_text(n as int) + ")"@,
            InstructionType::Pop => "Pop"@,
            InstructionType::Add => "Add"@,
            InstructionType::Sub => "Sub"@,
            InstructionType::Mul => "Mul"@,
            InstructionType::Div => "Div"@,
            InstructionType::Print => "Print"@,
            InstructionType::While(target) => "While("@ + decimal_digits(target as nat) + ")"@,
            InstructionType::EndWhile(target) => "EndWhile("@ + decimal_digits(target as nat)
                + ")"@,
            InstructionType::If(target) => "If("@ + decimal_digits(target as nat) + ")"@,
            InstructionType::Else(target) => "Else("@ + decimal_digits(target as nat) + ")"@,
            InstructionType::EndIf => "EndIf"@,
            InstructionType::Dup => "Dup"@,
            InstructionType::Swap => "Swap"@,
            InstructionType::Rot => "Rot"@,
            InstructionType::Over => "Over"@,
            InstructionType::Nip => "Nip"@,
            InstructionType::Call(entry) => "Call("@ + decimal_digits(entry as nat) + ")"@,
            InstructionType::Ret => "Ret"@,
        }
    }

    /// Whether the instruction carries a jump target that the resolver fills
    /// in: `While`, `EndWhile`, `If` and `Else`.
    pub open spec fn takes_target(self) -> bool {
        self is While || self is EndWhile || self is If || self is Else
    }

    /// The same kind of instruction with `target` as its jump target.
    pub open spec fn with_target(self, target: usize) -> InstructionType {
        match self {
            InstructionType::While(_) => InstructionType::While(target),
            InstructionType::EndWhile(_) => InstructionType::EndWhile(target),
            InstructionType::If(_) => InstructionType::If(target),
            InstructionType::Else(_) => InstructionType::Else(target),
            other => other,
        }
    }

    /// The source word of the instruction.
    pub fn text(&self) -> (word: String)
        ensures
            word@ == self.spec_text(),
    {
        match self {
            InstructionType::While(_) => "while".to_string(),
            InstructionType::EndWhile(_) => "end".to_string(),
            InstructionType::Push(n) => signed_to_string(*n as i64),
            InstructionType::Pop => "pop".to_string(),
            InstructionType::Add => "+".to_string(),
            InstructionType::Sub => "-".to_string(),
            InstructionType::Mul => "*".to_string(),
            InstructionType::Div => "/".to_string(),
            InstructionType::Print => "print".to_string(),
            InstructionType::Dup => "dup".to_string(),
            InstructionType::Swap => "swap".to_string(),
            InstructionType::Rot => "rot".to_string(),
            InstructionType::Over => "over".to_string(),
            InstructionType::Nip => "nip".to_string(),
            InstructionType::If(_) => "if".to_string(),
            InstructionType::Else(_) => "else".to_string(),
            InstructionType::EndIf => "end".to_string(),
            InstructionType::Ret => "ret".to_string(),
            InstructionType::Call(entry) => "call ".to_string().concat(
                unsigned_to_string(*entry as u64).as_str(),
            ),
        }
    }

    /// The name of the variant with its payload, as `While(7)` or `EndIf`.
    pub fn name(&self) -> (word: String)
        ensures
            word@ == self.spec_name(),
    {
        match self {
            InstructionType::Push(n) => "Push(".to_string().concat(
                signed_to_string(*n as i64).as_str(),
            ).concat(")"),
            InstructionType::Pop => "Pop".to_string(),
            InstructionType::Add => "Add".to_string(),
            InstructionType::Sub => "Sub".to_string(),
            InstructionType::Mul => "Mul".to_string(),
            InstructionType::Div => "Div".to_string(),
            InstructionType::Print => "Print".to_string(),
            InstructionType::While(target) => "While(".to_string().concat(
                unsigned_to_string(*target as u64).as_str(),
            ).concat(")"),
            InstructionType::EndWhile(target) => "EndWhile(".to_string().concat(
                unsigned_to_string(*target as u64).as_str(),
            ).concat(")"),
            InstructionType::If(target) => "If(".to_string().concat(
                unsigned_to_string(*target as u64).as_str(),
            ).concat(")"),
            InstructionType::Else(target) => "Else(".to_string().concat(
                unsigned_to_string(*target as u64).as_str(),
            ).concat(")"),
            InstructionType::EndIf => "EndIf".to_string(),
            InstructionType::Dup => "Dup".to_string(),
            InstructionType::Swap => "Swap".to_string(),
            InstructionType::Rot => "Rot".to_string(),
            InstructionType::Over => "Over".to_string(),
            InstructionType::Nip => "Nip".to_string(),
            InstructionType::Call(entry) => "Call(".to_string().concat(
                unsigned_to_string(*entry as u64).as_str(),
            ).concat(")"),
            InstructionType::Ret => "Ret".to_string(),
        }
    }
}

impl Instruction {
    /// The error that [`Instruction::set_jmp_pos`] gives for an instruction
    /// that carries no jump target.
    pub open spec fn no_target_error(self) -> ErrorView {
        ErrorView::Parse {
            word: self.instruction_type.spec_name(),
            pos: self.pos,
            line: self.line,
            comment: "This instruction doesn't support jmp"@,
        }
    }

    /// A copy of the instruction whose jump target is `jmp_pos`; an error for
    /// the kinds that carry none.
    pub fn set_jmp_pos(&self, jmp_pos: usize) -> (r: Result<Instruction, Error>)
        ensures
            self.instruction_type.takes_target() ==> r == Ok::<Instruction, Error>(
                Instruction {
                    instruction_type: self.instruction_type.with_target(jmp_pos),
                    pos: self.pos,
                    line: self.line,
                },
            ),
            !self.instruction_type.takes_target() ==> r is Err && r->Err_0@
                == self.no_target_error(),
    {
        match self.instruction_type {
            InstructionType::While(_) => Ok(
                Instruction {
                    instruction_type: InstructionType::While(jmp_pos),
                    pos: self.pos,
                    line: self.line,
                },
            ),
            InstructionType::EndWhile(_) => Ok(
                Instruction {
                    instruction_type: InstructionType::EndWhile(jmp_pos),
                    pos: self.pos,
                    line: self.line,
                },
            ),
            InstructionType::If(_) => Ok(
                Instruction {
                    instruction_type: InstructionType::If(jmp_pos),
                    pos: self.pos,
                    line: self.line,
                },
            ),
            InstructionType::Else(_) => Ok(
                Instruction {
                    instruction_type: InstructionType::Else(jmp_pos),
                    pos: self.pos,
                    line: self.line,
                },
            ),
            _ => Err(
                Error::Parse {
                    word: self.instruction_type.name(),
                    pos: self.pos,
                    line: self.line,
                    comment: "This instruction doesn't support jmp".to_string(),
                },
            ),
        }
    }
}

/// What the resolver knows after some of the tokens.
pub struct ParseState {
    /// The instructions emitted so far.
    pub instructions: Seq<Instruction>,
    /// The indices of the `While`, `If` and `Else` instructions that still
    /// wait for their partner, outermost first.
    pub open: Seq<usize>,
    /// The functions declared so far.
    pub functions: Map<Seq<char>, usize>,
}

/// The instruction that a token without structure turns into, if it is one.
pub open spec fn plain_instruction(kind: TokenKind) -> Option<InstructionType> {
    match kind {
        TokenKind::Num(n) => Some(InstructionType::Push(n)),
        TokenKind::Pop => Some(InstructionType::Pop),
        TokenKind::Add => Some(InstructionType::Add),
        TokenKind::Sub => Some(InstructionType::Sub),
        TokenKind::Mul => Some(InstructionType::Mul),
        TokenKind::Div => Some(InstructionType::Div),
        TokenKind::Print => Some(InstructionType::Print),
        TokenKind::Dup => Some(InstructionType::Dup),
        TokenKind::Swap => Some(InstructionType::Swap),
        TokenKind::Rot => Some(InstructionType::Rot),
        TokenKind::Over => Some(InstructionType::Over),
        TokenKind::Nip => Some(InstructionType::Nip),
        TokenKind::Ret => Some(InstructionType::Ret),
        _ => None,
    }
}

/// The error for a token that closes a block where none is open, or none
/// that it can close.
pub open spec fn unexpected(token: TokenView) -> ErrorView {
    ErrorView::Parse {
        word: token.kind.text(),
        pos: token.pos,
        line: token.line,
        comment: "Unexpected `"@ + token.kind.text() + "`"@,
    }
}

/// The error for an `else` whose innermost open block is no `if`.
pub open spec fn else_without_if(token: TokenView) -> ErrorView {
    ErrorView::Parse {
        word: token.kind.text(),
        pos: token.pos,
        line: token.line,
        comment: "This `else` has no matching if"@,
    }
}

/// The error for a call of a name that no earlier token declared.
pub open spec fn function_not_found(token: TokenView) -> ErrorView {
    ErrorView::Parse {
        word: token.kind.text(),
        pos: token.pos,
        line: token.line,
        comment: "Function not found"@,
    }
}

/// The error for a declaration keyword that no identifier follows.
pub open spec fn function_name_missing(token: TokenView) -> ErrorView {
    ErrorView::Parse {
        word: "function"@,
        pos: token.pos,
        line: token.line,
        comment: "Function name is missing"@,
    }
}

/// The error for a block that is still open when the tokens end.
pub open spec fn never_closed(opener: Instruction) -> ErrorView {
    ErrorView::Parse {
        word: opener.instruction_type.spec_text(),
        pos: opener.pos,
        line: opener.line,
        comment: "This `"@ + opener.instruction_type.spec_text() + "` has no matching end"@,
    }
}

impl ParseState {
    /// The state before the first token.
    pub open spec fn start() -> ParseState {
        ParseState { instructions: Seq::empty(), open: Seq::empty(), functions: Map::empty() }
    }

    /// The index that the next emitted instruction will have.
    pub open spec fn next_index(self) -> usize {
        self.instructions.len() as usize
    }

    /// Appends one instruction of the given kind, placed at `token`.
    pub open spec fn emit(self, kind: InstructionType, token: TokenView) -> ParseState {
        ParseState {
            instructions: self.instructions.push(
                Instruction { instruction_type: kind, pos: token.pos, line: token.line },
            ),
            ..self
        }
    }

    /// Gives the instruction at `index` the jump target `target`.
    pub open spec fn patch(self, index: usize, target: usize) -> ParseState {
        let opener = self.instructions[index as int];
        ParseState {
            instructions: self.instructions.update(
                index as int,
                Instruction {
                    instruction_type: opener.instruction_type.with_target(target),
                    ..opener
                },
            ),
            ..self
        }
    }

    /// Opens a block: remembers the index of the opener and emits it with a
    /// target of 0 that stands in until the partner is seen.
    pub open spec fn open_block(self, kind: InstructionType, token: TokenView) -> ParseState {
        ParseState { open: self.open.push(self.next_index()), ..self }.emit(kind, token)
    }

    /// Forgets the innermost open block.
    pub open spec fn close_block(self) -> ParseState {
        ParseState { open: self.open.drop_last(), ..self }
    }

    /// Records that `name` starts at the next instruction.
    pub open spec fn declare(self, name: Seq<char>) -> ParseState {
        ParseState { functions: self.functions.insert(name, self.next_index()), ..self }
    }

    /// The effect of one token other than the declaration keyword.
    ///
    /// - `while` and `if` open a block.
    /// - `else` needs an `if` as the innermost open block, points that `if`
    ///   at itself and opens a block of its own.
    /// - `end` needs a `while` or an `else` as the innermost open block. It
    ///   points the opener at itself; closing a `while` it points back at
    ///   the opener.
    /// - An identifier is a call of a function declared before it.
    /// - Every other token emits the one instruction that it names.
    pub open spec fn accept(self, token: TokenView) -> Result<ParseState, ErrorView> {
        match token.kind {
            TokenKind::While => Ok(self.open_block(InstructionType::While(0), token)),
            TokenKind::If => Ok(self.open_block(InstructionType::If(0), token)),
            TokenKind::Else => {
                if self.open.len() == 0 {
                    Err(unexpected(token))
                } else if self.instructions[self.open.last() as int].instruction_type is If {
                    Ok(
                        self.patch(self.open.last(), self.next_index()).close_block().open_block(
                            InstructionType::Else(0),
                            token,
                        ),
                    )
                } else {
                    Err(else_without_if(token))
                }
            },
            TokenKind::End => {
                if self.open.len() == 0 {
                    Err(unexpected(token))
                } else {
                    let opener = self.open.last();
                    let closed = self.patch(opener, self.next_index()).close_block();
                    match self.instructions[opener as int].instruction_type {
                        InstructionType::While(_) => Ok(
                            closed.emit(InstructionType::EndWhile(opener), token),
                        ),
                        InstructionType::Else(_) => Ok(closed.emit(InstructionType::EndIf, token)),
                        _ => Err(unexpected(token)),
                    }
                }
            },
            TokenKind::Identifier(name) => {
                if self.functions.contains_key(name) {
                    Ok(self.emit(InstructionType::Call(self.functions[name]), token))
                } else {
                    Err(function_not_found(token))
                }
            },
            TokenKind::Function => Ok(self),
            plain => Ok(self.emit(plain_instruction(plain).unwrap(), token)),
        }
    }

    /// The result once the tokens have ended: the program, or an error at
    /// the outermost block that is still open.
    pub open spec fn finish(self) -> Result<ProgramView, ErrorView> {
        if self.open.len() > 0 {
            Err(never_closed(self.instructions[self.open[0] as int]))
        } else {
            Ok(ProgramView { instructions: self.instructions, functions: self.functions })
        }
    }
}

/// The result of resolving the tokens from index `i` on, starting in `state`.
///
/// A declaration keyword takes the identifier after it as the name of a
/// function that starts at the next instruction; every other token acts as
/// [`ParseState::accept`] says. The first error ends the pass.
pub open spec fn parse_from(tokens: Seq<TokenView>, i: int, state: ParseState) -> Result<
    ProgramView,
    ErrorView,
>
    decreases tokens.len() - i,
{
    if i < 0 || i >= tokens.len() {
        state.finish()
    } else if tokens[i].kind is Function {
        if i + 1 < tokens.len() && tokens[i + 1].kind is Identifier {
            parse_from(tokens, i + 2, state.declare(tokens[i + 1].kind->Identifier_0))
        } else {
            Err(function_name_missing(tokens[i]))
        }
    } else {
        match state.accept(tokens[i]) {
            Ok(next) => parse_from(tokens, i + 1, next),
            Err(e) => Err(e),
        }
    }
}

/// The program that a token list resolves to, or the first error in it.
pub open spec fn parse_spec(tokens: Seq<TokenView>) -> Result<ProgramView, ErrorView> {
    parse_from(tokens, 0, ParseState::start())
}

impl InstructionType {
    /// Whether this is an opener as the resolver first emits it: with 0
    /// standing in for the target.
    pub open spec fn is_placeholder(self) -> bool {
        self == InstructionType::While(0) || self == InstructionType::If(0) || self
            == InstructionType::Else(0)
    }
}

impl ParseState {
    /// What holds of the state between any two tokens: the open blocks are
    /// placeholders at increasing indices, every other instruction is
    /// settled, and every declared function starts at or before the next
    /// index.
    pub open spec fn consistent(self) -> bool {
        &&& forall|k: int|
            0 <= k < self.open.len() ==> (#[trigger] self.open[k]) < self.instructions.len()
                && self.instructions[self.open[k] as int].instruction_type.is_placeholder()
        &&& forall|k: int, l: int|
            0 <= k < l < self.open.len() ==> (#[trigger] self.open[k]) < (#[trigger] self.open[l])
        &&& forall|i: int|
            0 <= i < self.instructions.len() ==> #[trigger] settled(self.instructions, i)
                || self.open.contains(i as usize)
        &&& forall|name: Seq<char>| #[trigger]
            self.functions.contains_key(name) ==> self.functions[name] <= self.instructions.len()
    }

    /// What holds of the blocks between any two tokens: no block that is
    /// still open lies inside a block that is closed, and no two blocks
    /// cross.
    pub open spec fn nested(self) -> bool {
        &&& forall|i: int, k: int|
            0 <= i < self.instructions.len() && 0 <= k < self.open.len() ==> !#[trigger] encloses(
                self.instructions,
                i,
                self.open[k] as int,
            )
        &&& properly_nested(self.instructions)
    }
}

/// In a consistent state a forward target is 0 for a block that is still
/// open, and otherwise an index of the list behind the opener.
proof fn lemma_forward_targets(state: ParseState, i: int)
    requires
        state.consistent(),
        state.instructions.len() <= usize::MAX,
        0 <= i < state.instructions.len(),
    ensures
        forward_target(state.instructions[i].instruction_type) matches Some(target) ==> {
            if state.open.contains(i as usize) {
                target == 0
            } else {
                i < target < state.instructions.len()
            }
        },
{
    if state.open.contains(i as usize) {
        let k = state.open.index_of(i as usize);
        assert(state.open[k] == i);
    } else {
        assert(settled(state.instructions, i));
    }
}

/// No index behind the innermost open block is an open block.
proof fn lemma_behind_innermost(state: ParseState, j: int)
    requires
        state.consistent(),
        state.open.len() > 0,
        state.open.last() < j <= usize::MAX,
    ensures
        !state.open.contains(j as usize),
{
    if state.open.contains(j as usize) {
        let k = state.open.index_of(j as usize);
        assert(state.open[k] == j);
        if k < state.open.len() - 1 {
            assert(state.open[k] < state.open[state.open.len() - 1]);
        }
    }
}

/// Appending an instruction that opens no block, or a placeholder that is
/// put on the open blocks, keeps the blocks nested, where every forward
/// target lies at or before the next index.
proof fn lemma_bounded_append_nested(state: ParseState, next: ParseState, added: Instruction)
    requires
        state.nested(),
        state.instructions.len() < usize::MAX,
        forall|i: int|
            0 <= i < state.instructions.len() ==> (forward_target(
                #[trigger] state.instructions[i].instruction_type,
            ) matches Some(target) ==> target <= state.instructions.len()),
        next.instructions == state.instructions.push(added),
        forward_target(added.instruction_type) is None && next.open == state.open
            || added.instruction_type.is_placeholder() && next.open == state.open.push(
            state.next_index(),
        ),
    ensures
        next.nested(),
{
    let n = state.instructions.len() as int;
    assert forall|i: int, k: int|
        0 <= i < next.instructions.len() && 0 <= k < next.open.len() implies !#[trigger] encloses(
        next.instructions,
        i,
        next.open[k] as int,
    ) by {
        if i < n {
            assert(forward_target(state.instructions[i].instruction_type) matches Some(target)
                ==> target <= n);
            if k < state.open.len() {
                assert(!encloses(state.instructions, i, state.open[k] as int));
            }
        }
    }
    assert forall|i: int, j: int|
        0 <= i < next.instructions.len() && 0 <= j < next.instructions.len() implies !#[trigger] crosses(
        next.instructions,
        i,
        j,
    ) by {
        if i < n {
            assert(forward_target(state.instructions[i].instruction_type) matches Some(target)
                ==> target <= n);
            if j < n {
                assert(!crosses(state.instructions, i, j));
            }
        }
    }
}

/// Appending an instruction that opens no block, or a placeholder that is
/// put on the open blocks, keeps the blocks of a consistent state nested.
proof fn lemma_append_nested(state: ParseState, next: ParseState, added: Instruction)
    requires
        state.consistent(),
        state.nested(),
        state.instructions.len() < usize::MAX,
        next.instructions == state.instructions.push(added),
        forward_target(added.instruction_type) is None && next.open == state.open
            || added.instruction_type.is_placeholder() && next.open == state.open.push(
            state.next_index(),
        ),
    ensures
        next.nested(),
{
    assert forall|i: int| 0 <= i < state.instructions.len() implies (forward_target(
        #[trigger] state.instructions[i].instruction_type,
    ) matches Some(target) ==> target <= state.instructions.len()) by {
        lemma_forward_targets(state, i);
    }
    lemma_bounded_append_nested(state, next, added);
}

/// Pointing the innermost opener at the next index and forgetting it keeps
/// the blocks nested, and leaves every forward target at or before the
/// next index.
proof fn lemma_patch_close_nested(state: ParseState)
    requires
        state.consistent(),
        state.nested(),
        state.open.len() > 0,
        state.instructions.len() < usize::MAX,
    ensures
        ({
            let closed = state.patch(state.open.last(), state.next_index()).close_block();
            &&& closed.nested()
            &&& forall|i: int|
                0 <= i < closed.instructions.len() ==> (forward_target(
                    #[trigger] closed.instructions[i].instruction_type,
                ) matches Some(target) ==> target <= closed.instructions.len())
        }),
{
    let opener = state.open.last() as int;
    let n = state.instructions.len() as int;
    let closed = state.patch(state.open.last(), state.next_index()).close_block();
    assert(state.open[state.open.len() - 1] == opener);
    assert(state.instructions[opener].instruction_type.is_placeholder());
    assert forall|i: int, k: int|
        0 <= i < closed.instructions.len() && 0 <= k < closed.open.len() implies !#[trigger] encloses(
        closed.instructions,
        i,
        closed.open[k] as int,
    ) by {
        assert(closed.open[k] == state.open[k]);
        assert(state.open[k] < state.open[state.open.len() - 1]);
        if i != opener {
            assert(!encloses(state.instructions, i, state.open[k] as int));
        }
    }
    assert forall|i: int, j: int|
        0 <= i < closed.instructions.len() && 0 <= j < closed.instructions.len() implies !#[trigger] crosses(
        closed.instructions,
        i,
        j,
    ) by {
        if i == opener {
            if opener < j {
                lemma_behind_innermost(state, j);
                lemma_forward_targets(state, j);
            }
        } else if j == opener {
            assert(!encloses(state.instructions, i, state.open[state.open.len() - 1] as int));
        } else {
            assert(!crosses(state.instructions, i, j));
        }
    }
    assert forall|i: int| 0 <= i < closed.instructions.len() implies (forward_target(
        #[trigger] closed.instructions[i].instruction_type,
    ) matches Some(target) ==> target <= closed.instructions.len()) by {
        if i != opener {
            lemma_forward_targets(state, i);
        }
    }
}

/// A token that is accepted keeps every `Else` and every `EndIf` with its
/// opener, and gives the one that it emits the opener that it closes.
proof fn lemma_accept_matched(state: ParseState, token: TokenView)
    requires
        state.consistent(),
        closers_matched(state.instructions),
        state.instructions.len() < usize::MAX,
        state.accept(token) is Ok,
    ensures
        closers_matched(state.accept(token)->Ok_0.instructions),
{
    let next = state.accept(token)->Ok_0;
    let n = state.instructions.len() as int;
    assert forall|i: int| 0 <= i < next.instructions.len() implies #[trigger] has_opener(
        next.instructions,
        i,
    ) by {
        if i < n {
            assert(has_opener(state.instructions, i));
            assert(next.instructions[i].instruction_type is Else
                == state.instructions[i].instruction_type is Else);
            assert(next.instructions[i].instruction_type is EndIf
                == state.instructions[i].instruction_type is EndIf);
            // An opener that points at another instruction is no
            // placeholder, and stays as it is.
            if state.instructions[i].instruction_type is Else {
                let j = choose|j: int| #[trigger]
                    points_at(state.instructions, j, i)
                        && state.instructions[j].instruction_type is If;
                assert(!state.instructions[j].instruction_type.is_placeholder());
                assert(next.instructions[j] == state.instructions[j]);
                assert(points_at(next.instructions, j, i));
            } else if state.instructions[i].instruction_type is EndIf {
                let j = choose|j: int| #[trigger]
                    points_at(state.instructions, j, i)
                        && state.instructions[j].instruction_type is Else;
                assert(!state.instructions[j].instruction_type.is_placeholder());
                assert(next.instructions[j] == state.instructions[j]);
                assert(points_at(next.instructions, j, i));
            }
        } else if token.kind is Else || token.kind is End {
            let opener = state.open.last() as int;
            assert(state.open[state.open.len() - 1] == opener);
            assert(points_at(next.instructions, opener, i));
        }
    }
}

/// A token that is accepted keeps the blocks nested.
proof fn lemma_accept_nested(state: ParseState, token: TokenView)
    requires
        state.consistent(),
        state.nested(),
        state.instructions.len() < usize::MAX,
        state.accept(token) is Ok,
    ensures
        state.accept(token)->Ok_0.nested(),
{
    let next = state.accept(token)->Ok_0;
    let n = state.next_index();
    let at = |kind: InstructionType| Instruction {
        instruction_type: kind,
        pos: token.pos,
        line: token.line,
    };
    match token.kind {
        TokenKind::While => {
            lemma_append_nested(state, next, at(InstructionType::While(0)));
        },
        TokenKind::If => {
            lemma_append_nested(state, next, at(InstructionType::If(0)));
        },
        TokenKind::Else => {
            let closed = state.patch(state.open.last(), n).close_block();
            lemma_patch_close(state);
            lemma_patch_close_nested(state);
            lemma_bounded_append_nested(closed, next, at(InstructionType::Else(0)));
        },
        TokenKind::End => {
            let closed = state.patch(state.open.last(), n).close_block();
            lemma_patch_close(state);
            lemma_patch_close_nested(state);
            lemma_bounded_append_nested(closed, next, next.instructions[n as int]);
        },
        TokenKind::Identifier(name) => {
            lemma_append_nested(state, next, at(InstructionType::Call(state.functions[name])));
        },
        TokenKind::Function => {},
        plain => {
            lemma_append_nested(state, next, at(plain_instruction(plain).unwrap()));
        },
    }
}


/// Appending an instruction that is settled at its own index keeps the state
/// consistent.
proof fn lemma_emit_consistent(state: ParseState, kind: InstructionType, token: TokenView)
    requires
        state.consistent(),
        !kind.takes_target(),
        kind matches InstructionType::Call(entry) ==> entry <= state.instructions.len(),
    ensures
        state.emit(kind, token).consistent(),
{
    let next = state.emit(kind, token);
    assert forall|i: int| 0 <= i < next.instructions.len() implies #[trigger] settled(
        next.instructions,
        i,
    ) || next.open.contains(i as usize) by {
        if i < state.instructions.len() {
            assert(settled(state.instructions, i) || state.open.contains(i as usize));
        }
    }
}

/// Opening a block keeps the state consistent.
proof fn lemma_open_consistent(state: ParseState, kind: InstructionType, token: TokenView)
    requires
        state.consistent(),
        state.instructions.len() < usize::MAX,
        kind.is_placeholder(),
    ensures
        state.open_block(kind, token).consistent(),
{
    let next = state.open_block(kind, token);
    let n = state.instructions.len() as int;
    assert(next.open[next.open.len() - 1] == n);
    assert forall|i: int| 0 <= i < next.instructions.len() implies #[trigger] settled(
        next.instructions,
        i,
    ) || next.open.contains(i as usize) by {
        if i < n {
            assert(settled(state.instructions, i) || state.open.contains(i as usize));
            if state.open.contains(i as usize) {
                let k = state.open.index_of(i as usize);
                assert(next.open[k] == i as usize);
            }
        }
    }
}

/// Pointing the innermost opener at the next index and forgetting it keeps
/// every other instruction as it was: settled, or still open.
proof fn lemma_patch_close(state: ParseState)
    requires
        state.consistent(),
        state.open.len() > 0,
        state.instructions.len() < usize::MAX,
    ensures
        ({
            let opener = state.open.last();
            let closed = state.patch(opener, state.next_index()).close_block();
            &&& closed.instructions.len() == state.instructions.len()
            &&& closed.functions == state.functions
            &&& closed.open == state.open.drop_last()
            &&& closed.instructions[opener as int].instruction_type
                == state.instructions[opener as int].instruction_type.with_target(
                state.next_index(),
            )
            &&& forall|k: int|
                0 <= k < closed.open.len() ==> (#[trigger] closed.open[k]) < opener
                    && closed.instructions[closed.open[k] as int].instruction_type.is_placeholder()
            &&& forall|k: int, l: int|
                0 <= k < l < closed.open.len() ==> (#[trigger] closed.open[k]) < (
                #[trigger] closed.open[l])
            &&& forall|i: int|
                0 <= i < closed.instructions.len() && i != opener ==> #[trigger] settled(
                    closed.instructions,
                    i,
                ) || closed.open.contains(i as usize)
        }),
{
    let opener = state.open.last();
    let closed = state.patch(opener, state.next_index()).close_block();
    assert(state.open[state.open.len() - 1] == opener);
    assert forall|i: int|
        0 <= i < closed.instructions.len() && i != opener implies #[trigger] settled(
        closed.instructions,
        i,
    ) || closed.open.contains(i as usize) by {
        assert(settled(state.instructions, i) || state.open.contains(i as usize));
        if state.open.contains(i as usize) {
            let k = state.open.index_of(i as usize);
            assert(closed.open[k] == i as usize);
        }
    }
}

/// A token that is accepted keeps the state consistent and adds at most one
/// instruction.
proof fn lemma_accept_consistent(state: ParseState, token: TokenView)
    requires
        state.consistent(),
        state.instructions.len() < usize::MAX,
        state.accept(token) is Ok,
    ensures
        state.accept(token)->Ok_0.consistent(),
        state.accept(token)->Ok_0.instructions.len() <= state.instructions.len() + 1,
{
    let next = state.accept(token)->Ok_0;
    let n = state.next_index();
    match token.kind {
        TokenKind::While => {
            lemma_open_consistent(state, InstructionType::While(0), token);
        },
        TokenKind::If => {
            lemma_open_consistent(state, InstructionType::If(0), token);
        },
        TokenKind::Else => {
            let opener = state.open.last();
            let closed = state.patch(opener, n).close_block();
            lemma_patch_close(state);
            assert(next.open[next.open.len() - 1] == n);
            assert forall|i: int| 0 <= i < next.instructions.len() implies #[trigger] settled(
                next.instructions,
                i,
            ) || next.open.contains(i as usize) by {
                if i < n && i != opener {
                    assert(settled(closed.instructions, i) || closed.open.contains(i as usize));
                    if closed.open.contains(i as usize) {
                        let k = closed.open.index_of(i as usize);
                        assert(next.open[k] == i as usize);
                    }
                }
            }
        },
        TokenKind::End => {
            let opener = state.open.last();
            let closed = state.patch(opener, n).close_block();
            lemma_patch_close(state);
            assert forall|i: int| 0 <= i < next.instructions.len() implies #[trigger] settled(
                next.instructions,
                i,
            ) || next.open.contains(i as usize) by {
                if i < n && i != opener {
                    assert(settled(closed.instructions, i) || closed.open.contains(i as usize));
                }
            }
        },
        TokenKind::Identifier(name) => {
            lemma_emit_consistent(state, InstructionType::Call(state.functions[name]), token);
        },
        TokenKind::Function => {},
        plain => {
            lemma_emit_consistent(state, plain_instruction(plain).unwrap(), token);
        },
    }
}

/// Whatever the tokens, a program that comes out of the resolver has every
/// jump settled and its blocks nested, and each of its functions starts at
/// an index of the list or right behind it.
proof fn lemma_parse_resolves(tokens: Seq<TokenView>, i: int, state: ParseState)
    requires
        tokens.len() <= usize::MAX,
        0 <= i <= tokens.len(),
        state.instructions.len() <= i,
        state.consistent(),
        state.nested(),
        closers_matched(state.instructions),
    ensures
        parse_from(tokens, i, state) matches Ok(program) ==> {
            &&& jumps_resolved(program.instructions)
            &&& properly_nested(program.instructions)
            &&& closers_matched(program.instructions)
            &&& program.instructions.len() <= tokens.len()
            &&& forall|name: Seq<char>| #[trigger]
                program.functions.contains_key(name) ==> program.functions[name]
                    <= program.instructions.len()
        },
    decreases tokens.len() - i,
{
    if i >= tokens.len() {
        if state.open.len() == 0 {
            assert forall|j: int| 0 <= j < state.instructions.len() implies settled(
                state.instructions,
                j,
            ) by {
                assert(settled(state.instructions, j) || state.open.contains(j as usize));
            }
        }
    } else if tokens[i].kind is Function {
        if i + 1 < tokens.len() && tokens[i + 1].kind is Identifier {
            lemma_parse_resolves(tokens, i + 2, state.declare(tokens[i + 1].kind->Identifier_0));
        }
    } else {
        if state.accept(tokens[i]) is Ok {
            lemma_accept_consistent(state, tokens[i]);
            lemma_accept_nested(state, tokens[i]);
            lemma_accept_matched(state, tokens[i]);
            lemma_parse_resolves(tokens, i + 1, state.accept(tokens[i])->Ok_0);
        }
    }
}

/// The resolver at work: the growing instruction list, the indices of the
/// blocks that are still open, and the functions declared so far.
struct Resolver {
    instructions: Vec<Instruction>,
    open: Vec<usize>,
    functions: FunctionTable,
}

impl View for Resolver {
    type V = ParseState;

    closed spec fn view(&self) -> ParseState {
        ParseState {
            instructions: self.instructions@,
            open: self.open@,
            functions: self.functions@,
        }
    }
}

/// A structural error at `token` with the given explanation.
fn error_at(token: &Token, comment: String) -> (e: Error)
    ensures
        e@ == (ErrorView::Parse {
            word: token@.kind.text(),
            pos: token.pos,
            line: token.line,
            comment: comment@,
        }),
{
    Error::Parse { word: token.token_type.text(), pos: token.pos, line: token.line, comment }
}

/// The error for a closing token that closes nothing.
fn unexpected_error(token: &Token) -> (e: Error)
    ensures
        e@ == unexpected(token@),
{
    let comment = "Unexpected `".to_string().concat(token.token_type.text().as_str()).concat("`");
    error_at(token, comment)
}

/// The instruction that a token without structure turns into, if it is one.
fn plain_instruction_of(token_type: &TokenType) -> (kind: Option<InstructionType>)
    ensures
        kind == plain_instruction(token_type@),
{
    match token_type {
        TokenType::Num(n) => Some(InstructionType::Push(*n)),
        TokenType::Pop => Some(InstructionType::Pop),
        TokenType::Add => Some(InstructionType::Add),
        TokenType::Sub => Some(InstructionType::Sub),
        TokenType::Mul => Some(InstructionType::Mul),
        TokenType::Div => Some(InstructionType::Div),
        TokenType::Print => Some(InstructionType::Print),
        TokenType::Dup => Some(InstructionType::Dup),
        TokenType::Swap => Some(InstructionType::Swap),
        TokenType::Rot => Some(InstructionType::Rot),
        TokenType::Over => Some(InstructionType::Over),
        TokenType::Nip => Some(InstructionType::Nip),
        TokenType::Ret => Some(InstructionType::Ret),
        _ => None,
    }
}

impl Resolver {
    /// The resolver before the first token.
    fn new() -> (resolver: Self)
        ensures
            resolver@ == ParseState::start(),
    {
        Resolver { instructions: Vec::new(), open: Vec::new(), functions: FunctionTable::new() }
    }

    /// Appends one instruction of the given kind, placed at `token`.
    fn emit(&mut self, kind: InstructionType, token: &Token)
        ensures
            final(self)@ == old(self)@.emit(kind, token@),
    {
        self.instructions.push(
            Instruction { instruction_type: kind, pos: token.pos, line: token.line },
        );
    }

    /// Remembers the next index as an open block and emits the opener.
    fn open_block(&mut self, kind: InstructionType, token: &Token)
        ensures
            final(self)@ == old(self)@.open_block(kind, token@),
    {
        self.open.push(self.instructions.len());
        self.emit(kind, token);
    }

    /// Points the innermost opener at the next index and forgets it.
    fn patch_close(&mut self) -> (opener: usize)
        requires
            old(self)@.consistent(),
            old(self)@.open.len() > 0,
        ensures
            opener == old(self)@.open.last(),
            final(self)@ == old(self)@.patch(opener, old(self)@.next_index()).close_block(),
    {
        let opener = self.open.pop().unwrap();
        assert(old(self)@.open[old(self)@.open.len() - 1] == opener);
        let patched = match self.instructions[opener].set_jmp_pos(self.instructions.len()) {
            Ok(patched) => patched,
            Err(_) => self.instructions[opener],
        };
        self.instructions[opener] = patched;
        opener
    }

    /// Takes in one token other than the declaration keyword.
    fn accept(&mut self, token: &Token) -> (r: Result<(), Error>)
        requires
            old(self)@.consistent(),
        ensures
            match r {
                Ok(()) => old(self)@.accept(token@) == Ok::<ParseState, ErrorView>(final(self)@),
                Err(e) => old(self)@.accept(token@) == Err::<ParseState, ErrorView>(e@),
            },
    {
        match &token.token_type {
            TokenType::While => {
                self.open_block(InstructionType::While(0), token);
                Ok(())
            },
            TokenType::If => {
                self.open_block(InstructionType::If(0), token);
                Ok(())
            },
            TokenType::Else => {
                if self.open.len() == 0 {
                    return Err(unexpected_error(token));
                }
                let innermost = self.open[self.open.len() - 1];
                match self.instructions[innermost].instruction_type {
                    InstructionType::If(_) => {
                        self.patch_close();
                        self.open_block(InstructionType::Else(0), token);
                        Ok(())
                    },
                    _ => Err(error_at(token, "This `else` has no matching if".to_string())),
                }
            },
            TokenType::End => {
                if self.open.len() == 0 {
                    return Err(unexpected_error(token));
                }
                let innermost = self.open[self.open.len() - 1];
                match self.instructions[innermost].instruction_type {
                    InstructionType::While(_) => {
                        let opener = self.patch_close();
                        self.emit(InstructionType::EndWhile(opener), token);
                        Ok(())
                    },
                    InstructionType::Else(_) => {
                        self.patch_close();
                        self.emit(InstructionType::EndIf, token);
                        Ok(())
                    },
                    _ => Err(unexpected_error(token)),
                }
            },
            TokenType::Identifier(name) => {
                match self.functions.get(name.as_str()) {
                    Some(entry) => {
                        let entry = *entry;
                        self.emit(InstructionType::Call(entry), token);
                        Ok(())
                    },
                    None => Err(error_at(token, "Function not found".to_string())),
                }
            },
            TokenType::Function => Ok(()),
            plain => {
                match plain_instruction_of(plain) {
                    Some(kind) => {
                        self.emit(kind, token);
                    },
                    None => {},
                }
                Ok(())
            },
        }
    }

    /// Records that `name` starts at the next instruction.
    fn declare(&mut self, name: &String)
        ensures
            final(self)@ == old(self)@.declare(name@),
    {
        self.functions.insert(name.clone(), self.instructions.len());
    }

    /// The program, unless a block is still open.
    fn finish(self) -> (r: Result<Program, Error>)
        requires
            self@.consistent(),
        ensures
            match r {
                Ok(program) => self@.finish() == Ok::<ProgramView, ErrorView>(program@),
                Err(e) => self@.finish() == Err::<ProgramView, ErrorView>(e@),
            },
    {
        if self.open.len() > 0 {
            let opener = &self.instructions[self.open[0]];
            let word = opener.instruction_type.text();
            let comment = "This `".to_string().concat(word.as_str()).concat(
                "` has no matching end",
            );
            Err(Error::Parse { word, pos: opener.pos, line: opener.line, comment })
        } else {
            Ok(Program { instructions: self.instructions, functions: self.functions })
        }
    }
}

/// A parse result with the mathematical content of its program or error.
pub open spec fn parse_result_view(r: Result<Program, Error>) -> Result<ProgramView, ErrorView> {
    match r {
        Ok(program) => Ok(program@),
        Err(e) => Err(e@),
    }
}

/// Resolves a token list into a program in one pass from left to right.
///
/// The result is what [`parse_spec`] says of the tokens: the program, or the
/// first structural error. In a program that comes out, every jump is
/// settled, the blocks nest, every `Else` and every `EndIf` has its opener,
/// and every function starts at an index of the list or right behind it.
pub fn parse(tokens: Vec<Token>) -> (r: Result<Program, Error>)
    ensures
        parse_result_view(r) == parse_spec(token_views(tokens@)),
        r matches Ok(program) ==> {
            &&& jumps_resolved(program.instructions@)
            &&& properly_nested(program.instructions@)
            &&& closers_matched(program.instructions@)
            &&& program.instructions@.len() <= tokens@.len()
            &&& forall|name: Seq<char>| #[trigger]
                program.functions@.contains_key(name) ==> program.functions@[name]
                    <= program.instructions@.len()
        },
{
    let ghost views = token_views(tokens@);
    let mut resolver = Resolver::new();
    let mut i: usize = 0;
    while i < tokens.len()
        invariant
            views == token_views(tokens@),
            i <= tokens@.len(),
            resolver@.instructions.len() <= i,
            resolver@.consistent(),
            resolver@.nested(),
            closers_matched(resolver@.instructions),
            parse_from(views, i as int, resolver@) == parse_spec(views),
        decreases tokens@.len() - i,
    {
        let token = &tokens[i];
        assert(views[i as int] == token@);
        match &token.token_type {
            TokenType::Function => {
                if i + 1 < tokens.len() {
                    assert(views[i + 1] == tokens@[i + 1]@);
                    match &tokens[i + 1].token_type {
                        TokenType::Identifier(name) => {
                            resolver.declare(name);
                            i += 2;
                            continue ;
                        },
                        _ => {},
                    }
                }
                return Err(
                    Error::Parse {
                        word: "function".to_string(),
                        pos: token.pos,
                        line: token.line,
                        comment: "Function name is missing".to_string(),
                    },
                );
            },
            _ => {
                proof {
                    if resolver@.accept(token@) is Ok {
                        lemma_accept_consistent(resolver@, token@);
                        lemma_accept_nested(resolver@, token@);
                        lemma_accept_matched(resolver@, token@);
                    }
                }
                match resolver.accept(token) {
                    Ok(()) => {},
                    Err(e) => {
                        return Err(e);
                    },
                }
                i += 1;
            },
        }
    }
    proof {
        lemma_parse_resolves(views, i as int, resolver@);
    }
    resolver.finish()
}

/// Resolving the same tokens twice gives the same result: two results that
/// both are what [`parse`] promises of one token list hold the same
/// instructions and the same functions, or the same error.
pub proof fn law_parse_deterministic(
    tokens: Seq<Token>,
    first: Result<Program, Error>,
    second: Result<Program, Error>,
)
    requires
        parse_result_view(first) == parse_spec(token_views(tokens)),
        parse_result_view(second) == parse_spec(token_views(tokens)),
    ensures
        parse_result_view(first) == parse_result_view(second),
        first matches Ok(p) ==> second matches Ok(q) && p.instructions@ == q.instructions@,
{
}

/// In every program that the tokens resolve to, the blocks are balanced.
/// Each jump is settled: the target of a `While`, an `If` or an `Else` is
/// an index of the list, a `While` leads to its `EndWhile` and back, an `If`
/// leads to an `Else` and that `Else` to an `EndIf`. The blocks nest: a
/// block that opens inside another one ends inside it. And every `Else` is
/// the target of an `If`, every `EndIf` of an `Else`; as the blocks nest, of
/// one only.
pub proof fn law_blocks_balanced(tokens: Seq<TokenView>)
    requires
        tokens.len() <= usize::MAX,
    ensures
        parse_spec(tokens) matches Ok(program) ==> {
            &&& jumps_resolved(program.instructions)
            &&& properly_nested(program.instructions)
            &&& closers_matched(program.instructions)
        },
{
    lemma_parse_resolves(tokens, 0, ParseState::start());
}

/// The state after the tokens from `i` up to `k`, where each of them is a
/// token without structure.
pub open spec fn after_plain(state: ParseState, tokens: Seq<TokenView>, i: int, k: int) -> ParseState
    decreases k - i,
{
    if i >= k {
        state
    } else {
        after_plain(
            state.emit(plain_instruction(tokens[i].kind).unwrap(), tokens[i]),
            tokens,
            i + 1,
            k,
        )
    }
}

/// Tokens without structure only append instructions: the open blocks, the
/// functions and the instructions already emitted stay as they are.
proof fn lemma_after_plain(state: ParseState, tokens: Seq<TokenView>, i: int, k: int)
    requires
        0 <= i <= k <= tokens.len(),
        forall|j: int| i <= j < k ==> plain_instruction(#[trigger] tokens[j].kind) is Some,
    ensures
        parse_from(tokens, i, state) == parse_from(tokens, k, after_plain(state, tokens, i, k)),
        after_plain(state, tokens, i, k).open == state.open,
        after_plain(state, tokens, i, k).functions == state.functions,
        after_plain(state, tokens, i, k).instructions.len() == state.instructions.len() + (k - i),
        forall|j: int|
            0 <= j < state.instructions.len() ==> (#[trigger] after_plain(
                state,
                tokens,
                i,
                k,
            ).instructions[j]) == state.instructions[j],
    decreases k - i,
{
    if i < k {
        assert(plain_instruction(tokens[i].kind) is Some);
        let next = state.emit(plain_instruction(tokens[i].kind).unwrap(), tokens[i]);
        assert(state.accept(tokens[i]) == Ok::<ParseState, ErrorView>(next));
        lemma_after_plain(next, tokens, i + 1, k);
        assert forall|j: int| 0 <= j < state.instructions.len() implies (#[trigger] after_plain(
            state,
            tokens,
            i,
            k,
        ).instructions[j]) == state.instructions[j] by {
            assert(next.instructions[j] == state.instructions[j]);
            assert(after_plain(next, tokens, i + 1, k).instructions[j] == next.instructions[j]);
        }
    }
}

/// An `end` that nothing but tokens without structure precede fails, and
/// the error names the word `end` at the place of that token.
pub proof fn law_unmatched_end(tokens: Seq<TokenView>, k: int)
    requires
        0 <= k < tokens.len(),
        forall|j: int| 0 <= j < k ==> plain_instruction(#[trigger] tokens[j].kind) is Some,
        tokens[k].kind is End,
    ensures
        parse_spec(tokens) == Err::<ProgramView, ErrorView>(
            ErrorView::Parse {
                word: "end"@,
                pos: tokens[k].pos,
                line: tokens[k].line,
                comment: "Unexpected `"@ + "end"@ + "`"@,
            },
        ),
{
    lemma_after_plain(ParseState::start(), tokens, 0, k);
}

/// A `while` that nothing but tokens without structure surround fails for
/// want of its `end`, and the error names the word `while` at the place of
/// that token.
pub proof fn law_unmatched_while(tokens: Seq<TokenView>, k: int)
    requires
        tokens.len() <= usize::MAX,
        0 <= k < tokens.len(),
        forall|j: int|
            0 <= j < tokens.len() && j != k ==> plain_instruction(#[trigger] tokens[j].kind)
                is Some,
        tokens[k].kind is While,
    ensures
        parse_spec(tokens) == Err::<ProgramView, ErrorView>(
            ErrorView::Parse {
                word: "while"@,
                pos: tokens[k].pos,
                line: tokens[k].line,
                comment: "This `"@ + "while"@ + "` has no matching end"@,
            },
        ),
{
    let before = after_plain(ParseState::start(), tokens, 0, k);
    lemma_after_plain(ParseState::start(), tokens, 0, k);
    let opened = before.open_block(InstructionType::While(0), tokens[k]);
    assert(before.accept(tokens[k]) == Ok::<ParseState, ErrorView>(opened));
    lemma_after_plain(opened, tokens, k + 1, tokens.len() as int);
    let last = after_plain(opened, tokens, k + 1, tokens.len() as int);
    assert(last.open =~= seq![k as usize]);
    assert(last.instructions[k] == opened.instructions[k]);
}

/// A call of a name that is not declared fails, and the error names the
/// identifier and its place.
pub proof fn law_call_undeclared(state: ParseState, token: TokenView)
    requires
        token.kind is Identifier,
        !state.functions.contains_key(token.kind->Identifier_0),
    ensures
        state.accept(token) == Err::<ParseState, ErrorView>(
            ErrorView::Parse {
                word: token.kind->Identifier_0,
                pos: token.pos,
                line: token.line,
                comment: "Function not found"@,
            },
        ),
{
}

/// A call of a declared name becomes a `Call` of exactly the index that the
/// declaration recorded: the index of the first instruction emitted after
/// the declaration.
pub proof fn law_call_declared(state: ParseState, name: Seq<char>, later: ParseState, call: TokenView)
    requires
        call.kind == TokenKind::Identifier(name),
        later.functions == state.declare(name).functions,
    ensures
        state.declare(name).functions[name] == state.next_index(),
        later.accept(call) == Ok::<ParseState, ErrorView>(
            later.emit(InstructionType::Call(state.next_index()), call),
        ),
{
}

/// A declaration directly followed by a call of its name resolves to the
/// one instruction `Call(0)`, with the name recorded at entry 0.
pub proof fn law_declare_then_call(declare: TokenView, name: TokenView, call: TokenView)
    requires
        declare.kind is Function,
        name.kind is Identifier,
        call.kind == name.kind,
    ensures
        parse_spec(seq![declare, name, call]) == Ok::<ProgramView, ErrorView>(
            ProgramView {
                instructions: seq![
                    Instruction {
                        instruction_type: InstructionType::Call(0),
                        pos: call.pos,
                        line: call.line,
                    },
                ],
                functions: Map::<Seq<char>, usize>::empty().insert(name.kind->Identifier_0, 0),
            },
        ),
{
    let tokens = seq![declare, name, call];
    let declared = ParseState::start().declare(name.kind->Identifier_0);
    let called = declared.emit(InstructionType::Call(0), call);
    assert(parse_spec(tokens) == parse_from(tokens, 2, declared));
    assert(declared.accept(tokens[2]) == Ok::<ParseState, ErrorView>(called));
    assert(parse_from(tokens, 3, called) == called.finish());
    assert(called.instructions =~= seq![
        Instruction { instruction_type: InstructionType::Call(0), pos: call.pos, line: call.line },
    ]);
}

} // verus!
