//! What cannot go wrong when compiled programs run.
//!
//! Compiled code has a fixed shape, and the machine keeps its program
//! counter, its return frames and its promises inside that shape.  From
//! this it follows that a compiled program never reaches a placeholder,
//! never leaves the code, never runs out of return frames and never
//! forces a promise with a bad address.

use crate::compile::{compiled, microcode, program, OpCode, D1_APPLICATION_END};
use crate::input::{read_spec, Reading};
use crate::machine::{
    auto_return, op_spec, promise_end, reprinter, step_spec, wants_input, Effect, VmError,
};
use crate::parse::SyntaxTree;
use crate::run::{run_spec, End};
use crate::value::{initial, push_frame, Machine, Promise, Val};
use vstd::prelude::*;

verus! {

/// The instructions of a compiled expression: pushes, applications, and
/// suspension checks that jump forward and stay inside the piece.
pub open spec fn plain(code: Seq<OpCode>) -> bool {
    forall|i: int|
        0 <= i < code.len() ==> match #[trigger] code[i] {
            OpCode::PushImmediate(_) => true,
            OpCode::Invoke => true,
            OpCode::CheckSuspend(off) => 1 <= off && i + off <= code.len(),
            _ => false,
        }
}

/// The shape of a compiled program: the fixed blocks, then plain code,
/// then `Finish`, all within the range of addresses.
pub open spec fn well_formed(code: Seq<OpCode>) -> bool {
    &&& D1_APPLICATION_END < code.len() <= usize::MAX
    &&& code.take(D1_APPLICATION_END as int) == microcode()
    &&& code.last() == OpCode::Finish
    &&& plain(code.subrange(D1_APPLICATION_END as int, code.len() - 1))
}

/// Every promise of code inside `v` has an address that follows a
/// suspension check, and every continuation inside `v` holds a machine
/// in place that stands at an `Invoke`.
pub open spec fn val_in_place(code: Seq<OpCode>, v: Val) -> bool
    decreases v,
{
    match v {
        Val::K1(a) => val_in_place(code, *a),
        Val::S1(a) => val_in_place(code, *a),
        Val::S2(a, b) => val_in_place(code, *a) && val_in_place(code, *b),
        Val::D1(Promise::Code(at)) => 1 <= at < code.len() && code[at - 1] is CheckSuspend,
        Val::D1(Promise::Value(a)) => val_in_place(code, *a),
        Val::D1(Promise::Application(a, b)) => val_in_place(code, *a) && val_in_place(code, *b),
        Val::C1(m) => machine_in_place(code, *m) && code[m.pc as int] == OpCode::Invoke,
        _ => true,
    }
}

/// Every value of `s` is in place.
pub open spec fn vals_in_place(code: Seq<OpCode>, s: Seq<Val>) -> bool
    decreases s,
{
    forall|i: int| 0 <= i < s.len() ==> val_in_place(code, #[trigger] s[i])
}

/// The sentinel is at the bottom, and every frame above it returns into
/// the code.
pub open spec fn frames_in_place(code: Seq<OpCode>, rs: Seq<(usize, usize)>) -> bool {
    &&& rs.len() >= 1
    &&& rs[0] == (code.len() as usize, code.len() as usize)
    &&& forall|i: int| 1 <= i < rs.len() ==> (#[trigger] rs[i]).0 < code.len()
}

/// The machine is in place: its counter is inside the code, its frames
/// and its values are in place.
pub open spec fn machine_in_place(code: Seq<OpCode>, m: Machine) -> bool
    decreases m,
{
    &&& m.pc < code.len()
    &&& frames_in_place(code, m.rstack)
    &&& vals_in_place(code, m.stack)
}

/// The code of an expression is plain.
pub proof fn lemma_compiled_is_plain(st: SyntaxTree)
    requires
        compiled(st).len() <= usize::MAX,
    ensures
        plain(compiled(st)),
        compiled(st).len() >= 1,
    decreases st,
{
    match st {
        SyntaxTree::Combinator(c) => {},
        SyntaxTree::Application(app) => {
            let func = compiled(*app.func);
            let arg = compiled(*app.arg);
            let all = compiled(st);
            assert(all.len() == func.len() + arg.len() + 2);
            lemma_compiled_is_plain(*app.func);
            lemma_compiled_is_plain(*app.arg);
            assert forall|i: int| 0 <= i < all.len() implies match #[trigger] all[i] {
                OpCode::PushImmediate(_) => true,
                OpCode::Invoke => true,
                OpCode::CheckSuspend(off) => 1 <= off && i + off <= all.len(),
                _ => false,
            } by {
                if i < func.len() {
                    assert(all[i] == func[i]);
                } else if i == func.len() {
                } else if i < func.len() + 1 + arg.len() {
                    assert(all[i] == arg[i - func.len() - 1]);
                } else {
                }
            }
        },
    }
}

/// A compiled program that fits the range of addresses is well formed.
pub proof fn lemma_program_is_well_formed(st: SyntaxTree)
    requires
        program(st).len() <= usize::MAX,
    ensures
        well_formed(program(st)),
{
    let code = program(st);
    lemma_compiled_is_plain(st);
    assert(code.take(D1_APPLICATION_END as int) =~= microcode());
    assert(code.subrange(D1_APPLICATION_END as int, code.len() - 1) =~= compiled(st));
}

/// What well-formed code holds at each address.
pub proof fn lemma_well_formed_at(code: Seq<OpCode>, i: int)
    requires
        well_formed(code),
        0 <= i < code.len(),
    ensures
        i < 10 ==> code[i] == microcode()[i],
        10 <= i < code.len() - 1 ==> match code[i] {
            OpCode::PushImmediate(_) => true,
            OpCode::Invoke => true,
            OpCode::CheckSuspend(off) => 1 <= off && i + off < code.len(),
            _ => false,
        },
        i == code.len() - 1 ==> code[i] == OpCode::Finish,
{
    if i < 10 {
        assert(code.take(10)[i] == code[i]);
    } else if i < code.len() - 1 {
        let body = code.subrange(10, code.len() - 1);
        assert(body[i - 10] == code[i]);
    }
}

/// Adding a frame that returns into the code keeps the frames in place.
pub proof fn lemma_push_frame_in_place(
    code: Seq<OpCode>,
    rs: Seq<(usize, usize)>,
    to: usize,
    from: usize,
)
    requires
        code.len() <= usize::MAX,
        frames_in_place(code, rs),
        to < code.len(),
    ensures
        frames_in_place(code, push_frame(rs, to, from)),
{
    let out = push_frame(rs, to, from);
    assert forall|i: int| 1 <= i < out.len() implies (#[trigger] out[i]).0 < code.len() by {
        if i < rs.len() {
            assert(rs[i].0 < code.len());
        }
    }
}

/// Pushing a value in place keeps a stack in place.
pub broadcast proof fn lemma_vals_in_place_push(code: Seq<OpCode>, s: Seq<Val>, v: Val)
    requires
        vals_in_place(code, s),
        val_in_place(code, v),
    ensures
        #[trigger] vals_in_place(code, s.push(v)),
{
    assert forall|i: int| 0 <= i < s.push(v).len() implies val_in_place(
        code,
        #[trigger] s.push(v)[i],
    ) by {
        if i < s.len() {
            assert(val_in_place(code, s[i]));
        }
    }
}

/// The lower part of a stack in place is in place.
pub broadcast proof fn lemma_vals_in_place_take(code: Seq<OpCode>, s: Seq<Val>, k: int)
    requires
        vals_in_place(code, s),
        0 <= k <= s.len(),
    ensures
        #[trigger] vals_in_place(code, s.take(k)),
{
    assert forall|i: int| 0 <= i < s.take(k).len() implies val_in_place(
        code,
        #[trigger] s.take(k)[i],
    ) by {
        assert(val_in_place(code, s[i]));
    }
}

/// A run of well-formed code starts in place.
pub proof fn lemma_initial_in_place(code: Seq<OpCode>)
    requires
        well_formed(code),
    ensures
        machine_in_place(code, initial(code.len() as usize, D1_APPLICATION_END)),
{
}

/// Well-formed code keeps the machine in place, and the only failures
/// left are a missing operand and an unclean end: no step reaches a
/// placeholder, leaves the code, runs out of return frames or meets a
/// promise with a bad address.  A value that ends the program is in
/// place.
pub proof fn lemma_step_stays_in_place(code: Seq<OpCode>, m: Machine, input: Option<char>)
    requires
        well_formed(code),
        machine_in_place(code, m),
    ensures
        match step_spec(code, m, input) {
            Ok(next) => match next.effect {
                Effect::Finish(v) => val_in_place(code, v),
                _ => machine_in_place(code, next.machine),
            },
            Err(e) => e == VmError::StackUnderflow || e == VmError::UncleanFinish,
        },
{
    broadcast use {lemma_vals_in_place_push, lemma_vals_in_place_take};

    let n = m.stack.len() as int;
    let pc = m.pc as int;
    reveal_with_fuel(val_in_place, 3);
    lemma_well_formed_at(code, pc);
    assert(microcode().len() == 10);
    assert(vals_in_place(code, m.stack.take(0)));
    if n >= 1 {
        assert(val_in_place(code, m.stack[n - 1]));
        assert(vals_in_place(code, m.stack.take(n - 1)));
    }
    if n >= 2 {
        assert(val_in_place(code, m.stack[n - 2]));
        assert(vals_in_place(code, m.stack.take(n - 2)));
    }
    if n >= 3 {
        assert(val_in_place(code, m.stack[n - 3]));
        assert(vals_in_place(code, m.stack.take(n - 3)));
    }
    if n >= 4 {
        assert(vals_in_place(code, m.stack.take(n - 4)));
    }
    if pc + 1 < code.len() {
        lemma_push_frame_in_place(code, m.rstack, (pc + 1) as usize, 5);
        lemma_push_frame_in_place(code, m.rstack, (pc + 1) as usize, 7);
        lemma_push_frame_in_place(code, m.rstack, (pc + 1) as usize, 10);
    }
    match op_spec(code, m, input) {
        Err(e) => {
            if code[pc] == OpCode::Invoke && n >= 2 {
                match m.stack[n - 2] {
                    Val::D1(Promise::Code(at)) => {
                        lemma_well_formed_at(code, at - 1);
                    },
                    _ => {},
                }
            }
        },
        Ok(next) => {
            if !(next.effect is Finish) {
                if code[pc] == OpCode::Invoke {
                    match m.stack[n - 2] {
                        Val::D1(Promise::Code(at)) => {
                            lemma_well_formed_at(code, at - 1);
                            lemma_push_frame_in_place(
                                code,
                                push_frame(m.rstack, (pc + 1) as usize, 7),
                                5,
                                promise_end(code, at)->Some_0,
                            );
                        },
                        Val::C => {
                            assert(machine_in_place(
                                code,
                                Machine { stack: m.stack.take(n - 2), ..m },
                            ));
                        },
                        Val::C1(snap) => {
                            lemma_well_formed_at(code, snap.pc as int);
                        },
                        Val::Reprint => {
                            assert(val_in_place(code, reprinter(m.cur_char)));
                        },
                        _ => {},
                    }
                }
                assert(machine_in_place(code, next.machine));
                lemma_auto_return_in_place(code, next.machine);
            }
        },
    }
}

/// Dropping the top frame on a return keeps the machine in place: the
/// sentinel never fires inside the code.
pub proof fn lemma_auto_return_in_place(code: Seq<OpCode>, m: Machine)
    requires
        code.len() <= usize::MAX,
        machine_in_place(code, m),
    ensures
        machine_in_place(code, auto_return(m)),
{
    let out = auto_return(m);
    if out != m {
        assert(m.rstack.len() >= 2);
        assert(m.rstack[m.rstack.len() - 1].0 < code.len());
        assert forall|i: int| 1 <= i < out.rstack.len() implies (#[trigger] out.rstack[i]).0
            < code.len() by {
            assert(m.rstack[i].0 < code.len());
        }
    }
}

/// How a run of well-formed code can end: with a value in place, at
/// the bound, or for want of an operand or of a clean end.
pub open spec fn safe_end(code: Seq<OpCode>, end: End) -> bool {
    match end {
        End::Done(v) => val_in_place(code, v),
        End::Failed(e) => e == VmError::StackUnderflow || e == VmError::UncleanFinish,
        End::OutOfFuel => true,
    }
}

/// A run of well-formed code from a machine in place ends as
/// [`safe_end`] says, whatever the input and the bound, and unless it
/// ends with a value it leaves the machine in place.
pub proof fn lemma_run_stays_in_place(code: Seq<OpCode>, m: Machine, input: Seq<u8>, fuel: nat)
    requires
        well_formed(code),
        machine_in_place(code, m),
    ensures
        safe_end(code, run_spec(code, m, input, fuel).end),
        !(run_spec(code, m, input, fuel).end is Done) ==> machine_in_place(
            code,
            run_spec(code, m, input, fuel).machine,
        ),
    decreases fuel,
{
    if fuel > 0 {
        let reading = if wants_input(code, m) {
            read_spec(input)
        } else {
            Reading { event: None, rest: input }
        };
        lemma_step_stays_in_place(code, m, reading.event);
        match step_spec(code, m, reading.event) {
            Err(e) => {},
            Ok(next) => {
                if !(next.effect is Finish) {
                    lemma_run_stays_in_place(code, next.machine, reading.rest, (fuel - 1) as nat);
                }
            },
        }
    }
}

/// A compiled program that fits the range of addresses runs from its
/// entry point as [`safe_end`] says.
pub proof fn lemma_program_runs_in_place(st: SyntaxTree, input: Seq<u8>, fuel: nat)
    requires
        program(st).len() <= usize::MAX,
    ensures
        safe_end(
            program(st),
            run_spec(
                program(st),
                initial(program(st).len() as usize, D1_APPLICATION_END),
                input,
                fuel,
            ).end,
        ),
{
    lemma_program_is_well_formed(st);
    lemma_initial_in_place(program(st));
    lemma_run_stays_in_place(
        program(st),
        initial(program(st).len() as usize, D1_APPLICATION_END),
        input,
        fuel,
    );
}

} // verus!
