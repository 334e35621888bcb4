//! The opcode set and the compiler from syntax trees to opcode arrays.

use crate::parse::{Combinator, SyntaxTree};
use vstd::prelude::*;

verus! {

/// One instruction of the machine.
#[derive(Debug, Clone, Copy, PartialEq, Eq)]
pub enum OpCode {
    /// Reserves a place during compilation; never meant to be executed.
    Placeholder,
    /// Pushes the primitive function of a combinator.
    PushImmediate(Combinator),
    /// Swaps the two top operands.
    Swap,
    /// Moves the top operand under the two below it.
    Rot,
    /// Where the operator just evaluated is `D`: replaces it by a promise
    /// of the operand's code and jumps over that code by the offset.
    CheckSuspend(usize),
    /// Inside the substitution block: where the operator is `D`, keeps
    /// the prepared promise and jumps by the offset.
    CheckDynamicSuspend(usize),
    /// Applies the operand under the top to the top operand.
    Invoke,
    /// Ends the program with the one remaining operand.
    Finish,
}

/// Start of the block that applies `S2`.
pub const S2_START: usize = 0;

/// End of the block that applies `S2`.
pub const S2_END: usize = 5;

/// Start of the block that applies a forced promise of code.
pub const D1_PROMISE_START: usize = 5;

/// End of the block that applies a forced promise of code.
pub const D1_PROMISE_END: usize = 7;

/// Start of the block that runs a delayed application.
pub const D1_APPLICATION_START: usize = 7;

/// End of the block that runs a delayed application.
pub const D1_APPLICATION_END: usize = 10;

/// The fixed blocks that every program starts with.
pub open spec fn microcode() -> Seq<OpCode> {
    seq![
        OpCode::Invoke,
        OpCode::CheckDynamicSuspend(4),
        OpCode::Rot,
        OpCode::Invoke,
        OpCode::Invoke,
        OpCode::Swap,
        OpCode::Invoke,
        OpCode::Invoke,
        OpCode::Swap,
        OpCode::Invoke,
    ]
}

/// The code of an expression: a combinator is pushed; an application is
/// its operator's code, a suspension check that can jump just past the
/// `Invoke`, the operand's code, and the `Invoke`.
pub open spec fn compiled(st: SyntaxTree) -> Seq<OpCode>
    decreases st,
{
    match st {
        SyntaxTree::Combinator(c) => seq![OpCode::PushImmediate(c)],
        SyntaxTree::Application(app) => {
            let func = compiled(*app.func);
            let arg = compiled(*app.arg);
            func + seq![OpCode::CheckSuspend((arg.len() + 2) as usize)] + arg
                + seq![OpCode::Invoke]
        },
    }
}

/// A whole program: the fixed blocks, the expression's code, `Finish`.
pub open spec fn program(st: SyntaxTree) -> Seq<OpCode> {
    microcode() + compiled(st) + seq![OpCode::Finish]
}

/// Appends the code of `st` to `code`.
pub fn compile(st: &SyntaxTree, code: &mut Vec<OpCode>)
    ensures
        final(code)@ == old(code)@ + compiled(*st),
    decreases *st,
{
    match st {
        SyntaxTree::Combinator(c) => {
            code.push(OpCode::PushImmediate(*c));
            assert(code@ =~= old(code)@ + compiled(*st));
        },
        SyntaxTree::Application(app) => {
            compile(&app.func, code);
            let placeholder_position = code.len();
            code.push(OpCode::Placeholder);
            compile(&app.arg, code);
            code.push(OpCode::Invoke);
            let next_position = code.len();
            code[placeholder_position] = OpCode::CheckSuspend(
                next_position - placeholder_position,
            );
            assert(code@ =~= old(code)@ + compiled(*st));
        },
    }
}

/// Compiles a program and gives its entry point, the first instruction
/// after the fixed blocks.
pub fn compile_toplevel(st: &SyntaxTree) -> (r: (Vec<OpCode>, usize))
    ensures
        r.0@ == program(*st),
        r.1 == D1_APPLICATION_END,
{
    let mut code: Vec<OpCode> = Vec::new();
    code.push(OpCode::Invoke);
    code.push(OpCode::CheckDynamicSuspend(4));
    code.push(OpCode::Rot);
    code.push(OpCode::Invoke);
    code.push(OpCode::Invoke);
    code.push(OpCode::Swap);
    code.push(OpCode::Invoke);
    code.push(OpCode::Invoke);
    code.push(OpCode::Swap);
    code.push(OpCode::Invoke);
    assert(code@ =~= microcode());
    let entry_point = code.len();
    compile(st, &mut code);
    code.push(OpCode::Finish);
    (code, entry_point)
}

} // verus!
