//! The stack discipline of compiled code.
//!
//! Every compiled expression leaves exactly one operand more than it
//! found, and never reaches below the operands it found.  The heights
//! defined here measure this statically, instruction by instruction.  A
//! balanced machine agrees with them wherever it stands, in compiled code
//! and in the fixed blocks, and every step keeps it balanced: this is why
//! a compiled program without comparisons never fails.

use crate::compile::{compiled, microcode, program, OpCode};
use crate::machine::{auto_return, op_spec, promise_end, reprinter, step_spec, Effect, Next};
use crate::parse::{parse_program, SyntaxTree};
use crate::input::{read_spec, Reading};
use crate::machine::{lemma_finish_is_clean, lemma_step_keeps_coalesced, wants_input};
use crate::run::{run_spec, source_run};
use crate::safety::{
    frames_in_place, lemma_initial_in_place, lemma_push_frame_in_place,
    lemma_step_stays_in_place, lemma_well_formed_at, machine_in_place, val_in_place,
    well_formed,
};
use crate::value::{
    coalesced, initial, lemma_push_frame_coalesced, machine_coalesced, push_frame,
    val_coalesced, Machine, Promise, Val,
};
use vstd::prelude::*;

verus! {

/// How many operands an instruction of compiled code adds.
pub open spec fn delta(op: OpCode) -> int {
    match op {
        OpCode::PushImmediate(_) => 1,
        OpCode::Invoke => -1,
        _ => 0,
    }
}

/// How many operands an instruction of compiled code looks at.
pub open spec fn need(op: OpCode) -> int {
    match op {
        OpCode::CheckSuspend(_) => 1,
        OpCode::Invoke => 2,
        _ => 0,
    }
}

/// The operands that the first `i` instructions of `code` add in all.
pub open spec fn height(code: Seq<OpCode>, i: int) -> int
    decreases i,
{
    if i <= 0 {
        0
    } else {
        height(code, i - 1) + delta(code[i - 1])
    }
}

/// The instruction at `j` suits a region with exit `e`: it is a push of
/// anything but a comparison, an `Invoke`, or a suspension check that
/// jumps no further than `e`; and it stands as far above the height that
/// the exit leaves less one as it needs.
pub open spec fn fits(code: Seq<OpCode>, j: int, e: int) -> bool {
    &&& height(code, j) - height(code, e) >= need(code[j]) - 1
    &&& match code[j] {
        OpCode::PushImmediate(c) => !(c is Compare),
        OpCode::Invoke => true,
        OpCode::CheckSuspend(off) => j + off <= e,
        _ => false,
    }
}

/// Every instruction from `pc` up to the exit `e` suits the region.
pub open spec fn ahead(code: Seq<OpCode>, pc: int, e: int) -> bool {
    &&& 0 <= pc <= e < code.len()
    &&& forall|j: int| pc <= j < e ==> #[trigger] fits(code, j, e)
}

/// What holds at a suspension check of nested code: its jump lands just
/// behind the `Invoke` of its application, at the height of the check,
/// and the operand's code in between is a region of its own.
pub open spec fn suspension_nested(code: Seq<OpCode>, i: int) -> bool {
    match code[i] {
        OpCode::CheckSuspend(off) => {
            &&& 2 <= off
            &&& i + off <= code.len()
            &&& code[i + off - 1] == OpCode::Invoke
            &&& height(code, i + off) == height(code, i)
            &&& ahead(code, i + 1, i + off - 1)
        },
        _ => true,
    }
}

/// The instruction at `j` suits the code of an expression that starts at
/// `a` and ends before `b`.
pub open spec fn placed(code: Seq<OpCode>, a: int, b: int, j: int) -> bool {
    &&& height(code, j) - height(code, a) >= need(code[j])
    &&& match code[j] {
        OpCode::PushImmediate(c) => !(c is Compare),
        OpCode::Invoke => true,
        OpCode::CheckSuspend(off) => j + off <= b,
        _ => false,
    }
    &&& suspension_nested(code, j)
}

/// The instructions of `code` from `a` up to `b` are the code of one
/// expression: a region whose suspension checks are nested and which adds
/// one operand.
pub open spec fn nested(code: Seq<OpCode>, a: int, b: int) -> bool {
    &&& 0 <= a < b <= code.len()
    &&& height(code, b) == height(code, a) + 1
    &&& forall|j: int| a <= j < b ==> #[trigger] placed(code, a, b, j)
}

/// No comparison occurs in the expression.
pub open spec fn compare_free(st: SyntaxTree) -> bool
    decreases st,
{
    match st {
        SyntaxTree::Combinator(c) => !(c is Compare),
        SyntaxTree::Application(app) => compare_free(*app.func) && compare_free(*app.arg),
    }
}

/// Heights in a part of the code are heights of the whole, shifted.
pub proof fn lemma_height_shift(whole: Seq<OpCode>, part: Seq<OpCode>, a: int, k: int)
    requires
        0 <= a,
        0 <= k <= part.len(),
        a + part.len() <= whole.len(),
        forall|j: int| 0 <= j < part.len() ==> part[j] == whole[a + j],
    ensures
        height(whole, a + k) == height(whole, a) + height(part, k),
    decreases k,
{
    if k > 0 {
        lemma_height_shift(whole, part, a, k - 1);
    }
}

/// A region that is nested inside a piece of code is nested inside any
/// code that holds the piece.
pub proof fn lemma_nested_shift(whole: Seq<OpCode>, part: Seq<OpCode>, a: int)
    requires
        0 <= a,
        a + part.len() <= whole.len(),
        forall|j: int| 0 <= j < part.len() ==> part[j] == whole[a + j],
        nested(part, 0, part.len() as int),
    ensures
        nested(whole, a, a + part.len()),
{
    let n = part.len() as int;
    lemma_height_shift(whole, part, a, n);
    lemma_height_shift(whole, part, a, 0);
    assert forall|j: int| a <= j < a + n implies #[trigger] placed(whole, a, a + n, j) by {
        let t = j - a;
        assert(placed(part, 0, n, t));
        assert(part[t] == whole[a + t]);
        lemma_height_shift(whole, part, a, t);
        match part[t] {
            OpCode::CheckSuspend(off) => {
                let e = t + off - 1;
                assert(part[e] == whole[a + e]);
                lemma_height_shift(whole, part, a, t + off);
                lemma_height_shift(whole, part, a, e);
                assert forall|u: int| j + 1 <= u < a + e implies #[trigger] fits(
                    whole,
                    u,
                    a + e,
                ) by {
                    assert(fits(part, u - a, e));
                    assert(part[u - a] == whole[a + (u - a)]);
                    lemma_height_shift(whole, part, a, u - a);
                }
            },
            _ => {},
        }
    }
}

/// The code of an expression without comparisons is nested.
pub proof fn lemma_compiled_is_nested(st: SyntaxTree)
    requires
        compare_free(st),
        compiled(st).len() <= usize::MAX,
    ensures
        nested(compiled(st), 0, compiled(st).len() as int),
    decreases st,
{
    let all = compiled(st);
    match st {
        SyntaxTree::Combinator(c) => {
            assert(height(all, 1) == height(all, 0) + delta(all[0]));
            assert forall|j: int| 0 <= j < 1 implies #[trigger] placed(all, 0, 1, j) by {}
        },
        SyntaxTree::Application(app) => {
            let func = compiled(*app.func);
            let arg = compiled(*app.arg);
            let nf = func.len() as int;
            let na = arg.len() as int;
            let n = nf + na + 2;
            assert(all.len() == n);
            lemma_compiled_is_nested(*app.func);
            lemma_compiled_is_nested(*app.arg);
            assert forall|j: int| 0 <= j < nf implies func[j] == all[0 + j] by {}
            assert forall|j: int| 0 <= j < na implies arg[j] == all[nf + 1 + j] by {}
            lemma_nested_shift(all, func, 0);
            lemma_nested_shift(all, arg, nf + 1);
            assert(all[nf] == OpCode::CheckSuspend((na + 2) as usize));
            assert(all[nf + na + 1] == OpCode::Invoke);
            assert(height(all, nf + 1) == height(all, nf) + delta(all[nf]));
            assert(height(all, n) == height(all, n - 1) + delta(all[n - 1]));
            assert forall|j: int| 0 <= j < n implies #[trigger] placed(all, 0, n, j) by {
                if j < nf {
                    assert(placed(all, 0, nf, j));
                } else if j == nf {
                    assert forall|u: int| nf + 1 <= u < nf + na + 1 implies #[trigger] fits(
                        all,
                        u,
                        nf + na + 1,
                    ) by {
                        assert(placed(all, nf + 1, nf + 1 + na, u));
                    }
                } else if j < nf + na + 1 {
                    assert(placed(all, nf + 1, nf + 1 + na, j));
                } else {
                }
            }
        },
    }
}

/// Well-formed code whose expression is nested: the shape of a compiled
/// program without comparisons.
pub open spec fn disciplined(code: Seq<OpCode>) -> bool {
    &&& well_formed(code)
    &&& nested(code, 10, code.len() - 1)
}

/// A compiled program without comparisons that fits the range of
/// addresses is disciplined.
pub proof fn lemma_program_is_disciplined(st: SyntaxTree)
    requires
        compare_free(st),
        program(st).len() <= usize::MAX,
    ensures
        disciplined(program(st)),
{
    let code = program(st);
    crate::safety::lemma_program_is_well_formed(st);
    lemma_compiled_is_nested(st);
    assert(microcode().len() == 10);
    assert forall|j: int| 0 <= j < compiled(st).len() implies compiled(st)[j] == code[10 + j] by {}
    lemma_nested_shift(code, compiled(st), 10);
}

/// The whole expression of disciplined code is a region that exits at
/// `Finish`.
pub proof fn lemma_disciplined_ahead(code: Seq<OpCode>)
    requires
        disciplined(code),
    ensures
        ahead(code, 10, code.len() - 1),
{
    let e = code.len() - 1;
    assert forall|j: int| 10 <= j < e implies #[trigger] fits(code, j, e) by {
        assert(placed(code, 10, e, j));
    }
}

/// A region seen from further on is still a region.
pub proof fn lemma_ahead_suffix(code: Seq<OpCode>, pc: int, later: int, e: int)
    requires
        ahead(code, pc, e),
        pc <= later <= e,
    ensures
        ahead(code, later, e),
{
    assert forall|j: int| later <= j < e implies #[trigger] fits(code, j, e) by {}
}

/// How many operands more than at its exit a segment holds at `pc`.  A
/// segment is one of the three fixed blocks, told by its exit (5, 7 and
/// 10 are the ends of the blocks), or a region of compiled code.
pub open spec fn rel(code: Seq<OpCode>, bottom: bool, e: int, pc: int) -> int {
    if !bottom && e == 5 {
        if pc == 0 {
            4
        } else if pc == 1 {
            3
        } else if pc == 2 || pc == 3 {
            2
        } else if pc == 4 {
            1
        } else {
            0
        }
    } else if !bottom && e == 7 {
        if pc == 5 || pc == 6 {
            1
        } else {
            0
        }
    } else if !bottom && e == 10 {
        if pc == 7 {
            2
        } else if pc == 8 || pc == 9 {
            1
        } else {
            0
        }
    } else {
        height(code, pc) - height(code, e)
    }
}

/// `pc` lies in the segment with exit `e`.
pub open spec fn within(code: Seq<OpCode>, bottom: bool, e: int, pc: int) -> bool {
    if !bottom && e == 5 {
        0 <= pc <= 5
    } else if !bottom && e == 7 {
        5 <= pc <= 7
    } else if !bottom && e == 10 {
        7 <= pc <= 10
    } else {
        &&& 10 <= pc
        &&& ahead(code, pc, e)
        &&& (bottom || (e < code.len() - 1 && code[e] == OpCode::Invoke))
    }
}

/// Where the segment of frame `k` exits: at the frame's `from`, and for
/// the sentinel at `Finish`.
pub open spec fn exit_of(code: Seq<OpCode>, rs: Seq<(usize, usize)>, k: int) -> int {
    if k <= 0 {
        code.len() - 1
    } else {
        rs[k].1 as int
    }
}

/// How many operands the stack holds when the segment of frame `k`
/// exits: one at `Finish`, and for each frame above as many as its
/// return address asks for in the segment below.
pub open spec fn depth_at_exit(code: Seq<OpCode>, rs: Seq<(usize, usize)>, k: int) -> int
    decreases k,
{
    if k <= 0 {
        1
    } else {
        depth_at_exit(code, rs, k - 1) + rel(
            code,
            k == 1,
            exit_of(code, rs, k - 1),
            rs[k].0 as int,
        )
    }
}

/// Frame `k` returns into the segment of the frame below it, and its
/// segment exits with at least one operand.
pub open spec fn frame_balanced(code: Seq<OpCode>, rs: Seq<(usize, usize)>, k: int) -> bool {
    &&& within(code, k == 1, exit_of(code, rs, k - 1), rs[k].0 as int)
    &&& depth_at_exit(code, rs, k) >= 1
}

/// Every frame above the sentinel is balanced.
pub open spec fn frames_balanced(code: Seq<OpCode>, rs: Seq<(usize, usize)>) -> bool {
    &&& rs.len() >= 1
    &&& forall|k: int| 1 <= k < rs.len() ==> #[trigger] frame_balanced(code, rs, k)
}

/// The machine is poised: its frames are balanced, its counter lies in
/// the segment of the top frame, and it holds `extra` operands less than
/// that place in the segment asks for.  Its values are balanced.
pub open spec fn machine_poised(code: Seq<OpCode>, m: Machine, extra: int) -> bool
    decreases m, 0int,
{
    let k = m.rstack.len() - 1;
    &&& frames_balanced(code, m.rstack)
    &&& within(code, k == 0, exit_of(code, m.rstack, k), m.pc as int)
    &&& m.stack.len() + extra == depth_at_exit(code, m.rstack, k) + rel(
        code,
        k == 0,
        exit_of(code, m.rstack, k),
        m.pc as int,
    )
    &&& vals_balanced(code, m.stack)
}

/// The machine is balanced: poised, and not at the exit of its segment.
pub open spec fn machine_balanced(code: Seq<OpCode>, m: Machine, extra: int) -> bool
    decreases m, 1int,
{
    &&& machine_poised(code, m, extra)
    &&& (m.rstack.len() > 1 ==> m.pc != m.rstack.last().1)
}

/// No comparison occurs in `v`, and every continuation in it holds a
/// machine that was balanced when it took its two operands.
pub open spec fn val_balanced(code: Seq<OpCode>, v: Val) -> bool
    decreases v, 0int,
{
    match v {
        Val::K1(a) => val_balanced(code, *a),
        Val::S1(a) => val_balanced(code, *a),
        Val::S2(a, b) => val_balanced(code, *a) && val_balanced(code, *b),
        Val::D1(Promise::Value(a)) => val_balanced(code, *a),
        Val::D1(Promise::Application(a, b)) => val_balanced(code, *a) && val_balanced(code, *b),
        Val::C1(m) => machine_balanced(code, *m, 2),
        Val::Compare(_) => false,
        _ => true,
    }
}

/// Every value of `s` is balanced.
pub open spec fn vals_balanced(code: Seq<OpCode>, s: Seq<Val>) -> bool
    decreases s, 0int,
{
    forall|i: int| 0 <= i < s.len() ==> val_balanced(code, #[trigger] s[i])
}

/// Pushing a balanced value keeps a stack balanced.
pub broadcast proof fn lemma_vals_balanced_push(code: Seq<OpCode>, s: Seq<Val>, v: Val)
    requires
        vals_balanced(code, s),
        val_balanced(code, v),
    ensures
        #[trigger] vals_balanced(code, s.push(v)),
{
    assert forall|i: int| 0 <= i < s.push(v).len() implies val_balanced(
        code,
        #[trigger] s.push(v)[i],
    ) by {
        if i < s.len() {
            assert(val_balanced(code, s[i]));
        }
    }
}

/// The lower part of a balanced stack is balanced.
pub broadcast proof fn lemma_vals_balanced_take(code: Seq<OpCode>, s: Seq<Val>, k: int)
    requires
        vals_balanced(code, s),
        0 <= k <= s.len(),
    ensures
        #[trigger] vals_balanced(code, s.take(k)),
{
    assert forall|i: int| 0 <= i < s.take(k).len() implies val_balanced(
        code,
        #[trigger] s.take(k)[i],
    ) by {
        assert(val_balanced(code, s[i]));
    }
}

/// The exit depth of a frame depends only on the frames up to it, and of
/// the frame itself only on its return address.
pub proof fn lemma_depth_agrees(
    code: Seq<OpCode>,
    rs1: Seq<(usize, usize)>,
    rs2: Seq<(usize, usize)>,
    k: int,
)
    requires
        0 <= k < rs1.len(),
        k < rs2.len(),
        forall|j: int| 0 <= j < k ==> rs1[j] == rs2[j],
        rs1[k].0 == rs2[k].0,
    ensures
        depth_at_exit(code, rs1, k) == depth_at_exit(code, rs2, k),
        k >= 1 ==> frame_balanced(code, rs1, k) == frame_balanced(code, rs2, k),
    decreases k,
{
    if k > 0 {
        lemma_depth_agrees(code, rs1, rs2, k - 1);
    }
}

/// A run of disciplined code starts balanced.
pub proof fn lemma_initial_balanced(code: Seq<OpCode>)
    requires
        disciplined(code),
    ensures
        machine_balanced(code, initial(code.len() as usize, 10), 0),
{
    lemma_disciplined_ahead(code);
}

/// At the exit of a segment no operand is left above the exit depth.
pub proof fn lemma_rel_at_exit(code: Seq<OpCode>, bottom: bool, e: int)
    ensures
        rel(code, bottom, e, e) == 0,
{
}

/// An `Invoke` that takes two operands and leaves one stays inside its
/// segment: the next address lies in the segment, one operand lower, and
/// at the `Invoke` the segment holds at least one operand more than at
/// its exit.
pub proof fn lemma_invoke_advances(code: Seq<OpCode>, bottom: bool, e: int, pc: int)
    requires
        well_formed(code),
        0 <= pc < code.len(),
        code[pc] == OpCode::Invoke,
        within(code, bottom, e, pc),
        bottom ==> e == code.len() - 1,
        !bottom ==> pc != e,
    ensures
        within(code, bottom, e, pc + 1),
        rel(code, bottom, e, pc + 1) == rel(code, bottom, e, pc) - 1,
        rel(code, bottom, e, pc) >= 1,
{
    lemma_well_formed_at(code, pc);
    assert(microcode().len() == 10);
    if !bottom && (e == 5 || e == 7 || e == 10) {
    } else {
        assert(pc < e);
        assert(fits(code, pc, e));
        lemma_ahead_suffix(code, pc, pc + 1, e);
        assert(height(code, pc + 1) == height(code, pc) + delta(code[pc]));
    }
}

/// Adding the frame of a call made by the `Invoke` at `pc` keeps the
/// frames balanced; the new top frame exits at `from`, one operand below
/// the height of the `Invoke`.
pub proof fn lemma_push_balanced(code: Seq<OpCode>, rs: Seq<(usize, usize)>, pc: int, from: usize)
    requires
        well_formed(code),
        frames_in_place(code, rs),
        frames_balanced(code, rs),
        coalesced(rs),
        0 <= pc < code.len(),
        code[pc] == OpCode::Invoke,
        within(code, rs.len() == 1, exit_of(code, rs, rs.len() - 1), pc),
        rs.len() > 1 ==> pc != rs.last().1,
        from == 5 || from == 7 || from == 10,
    ensures
        ({
            let out = push_frame(rs, (pc + 1) as usize, from);
            let k = rs.len() - 1;
            &&& frames_balanced(code, out)
            &&& out.len() >= 2
            &&& out.last().1 == from
            &&& depth_at_exit(code, out, out.len() - 1) == depth_at_exit(code, rs, k) + rel(
                code,
                k == 0,
                exit_of(code, rs, k),
                pc,
            ) - 1
            &&& depth_at_exit(code, out, out.len() - 1) >= 1
        }),
{
    let out = push_frame(rs, (pc + 1) as usize, from);
    let k = rs.len() - 1;
    let e = exit_of(code, rs, k);
    lemma_well_formed_at(code, pc);
    lemma_invoke_advances(code, k == 0, e, pc);
    lemma_rel_at_exit(code, k == 0, e);
    if k >= 1 {
        assert(frame_balanced(code, rs, k));
    }
    if rs.last().1 == (pc + 1) as usize {
        assert(k >= 1);
        assert(out.len() == rs.len());
        assert forall|j: int| 1 <= j < out.len() implies #[trigger] frame_balanced(
            code,
            out,
            j,
        ) by {
            assert(frame_balanced(code, rs, j));
            lemma_depth_agrees(code, out, rs, j);
        }
        lemma_depth_agrees(code, out, rs, k);
    } else {
        assert(out.len() == rs.len() + 1);
        lemma_depth_agrees(code, out, rs, k);
        assert forall|j: int| 1 <= j < out.len() implies #[trigger] frame_balanced(
            code,
            out,
            j,
        ) by {
            if j <= k {
                assert(frame_balanced(code, rs, j));
                lemma_depth_agrees(code, out, rs, j);
            } else {
                assert(exit_of(code, out, k) == e);
            }
        }
    }
}

/// The check for a return takes a poised machine to a balanced one.
pub proof fn lemma_auto_return_balanced(code: Seq<OpCode>, m: Machine)
    requires
        well_formed(code),
        frames_in_place(code, m.rstack),
        coalesced(m.rstack),
        machine_poised(code, m, 0),
    ensures
        machine_balanced(code, auto_return(m), 0),
{
    let rs = m.rstack;
    let k = rs.len() - 1;
    let out = auto_return(m);
    if m.pc == rs.last().1 {
        if k == 0 {
            assert(false);
        } else {
            let low = rs.drop_last();
            lemma_rel_at_exit(code, false, rs[k].1 as int);
            assert(frame_balanced(code, rs, k));
            lemma_depth_agrees(code, low, rs, k - 1);
            assert(exit_of(code, low, k - 1) == exit_of(code, rs, k - 1));
            assert forall|j: int| 1 <= j < low.len() implies #[trigger] frame_balanced(
                code,
                low,
                j,
            ) by {
                assert(frame_balanced(code, rs, j));
                lemma_depth_agrees(code, low, rs, j);
            }
            if k - 1 > 0 {
                assert(rs[k - 1].1 != rs[k - 1 + 1].0);
            }
        }
    }
}

/// What an instruction leaves behind, before the check for a return: a
/// poised machine whose frames are in place and coalesced.
pub open spec fn settles(code: Seq<OpCode>, next: Next) -> bool {
    match next.effect {
        Effect::Finish(v) => val_balanced(code, v),
        _ => {
            &&& machine_poised(code, next.machine, 0)
            &&& frames_in_place(code, next.machine.rstack)
            &&& coalesced(next.machine.rstack)
        },
    }
}

/// In disciplined code an instruction other than `Invoke` finds the
/// operands it needs and leaves the machine poised.
pub proof fn lemma_plain_op_settles(code: Seq<OpCode>, m: Machine, input: Option<char>)
    requires
        disciplined(code),
        machine_in_place(code, m),
        machine_coalesced(m),
        machine_balanced(code, m, 0),
        code[m.pc as int] != OpCode::Invoke,
    ensures
        op_spec(code, m, input) is Ok,
        settles(code, op_spec(code, m, input)->Ok_0),
{
    broadcast use {lemma_vals_balanced_push, lemma_vals_balanced_take};

    let rs = m.rstack;
    let k = rs.len() - 1;
    let e = exit_of(code, rs, k);
    let pc = m.pc as int;
    let n = m.stack.len() as int;
    reveal_with_fuel(val_balanced, 2);
    if k >= 1 {
        assert(frame_balanced(code, rs, k));
    }
    lemma_well_formed_at(code, pc);
    assert(microcode().len() == 10);
    assert(vals_balanced(code, m.stack.take(0)));
    if n >= 1 {
        assert(val_balanced(code, m.stack[n - 1]));
        assert(vals_balanced(code, m.stack.take(n - 1)));
    }
    if n >= 2 {
        assert(val_balanced(code, m.stack[n - 2]));
        assert(vals_balanced(code, m.stack.take(n - 2)));
    }
    if n >= 3 {
        assert(val_balanced(code, m.stack[n - 3]));
        assert(vals_balanced(code, m.stack.take(n - 3)));
    }
    if n >= 4 {
        assert(vals_balanced(code, m.stack.take(n - 4)));
    }
    if k == 0 || !(e == 5 || e == 7 || e == 10) {
        if pc == e {
            lemma_rel_at_exit(code, k == 0, e);
        } else {
            assert(fits(code, pc, e));
            assert(height(code, pc + 1) == height(code, pc) + delta(code[pc]));
            lemma_ahead_suffix(code, pc, pc + 1, e);
            assert(placed(code, 10, code.len() - 1, pc));
            match code[pc] {
                OpCode::CheckSuspend(off) => {
                    lemma_ahead_suffix(code, pc, pc + off, e);
                },
                _ => {},
            }
        }
    }
}

/// In disciplined code an `Invoke` finds its two operands, and whatever
/// it applies it leaves the machine poised.
pub proof fn lemma_invoke_settles(code: Seq<OpCode>, m: Machine, input: Option<char>)
    requires
        disciplined(code),
        machine_in_place(code, m),
        machine_coalesced(m),
        machine_balanced(code, m, 0),
        code[m.pc as int] == OpCode::Invoke,
    ensures
        op_spec(code, m, input) is Ok,
        settles(code, op_spec(code, m, input)->Ok_0),
{
    broadcast use {lemma_vals_balanced_push, lemma_vals_balanced_take};

    let rs = m.rstack;
    let k = rs.len() - 1;
    let e = exit_of(code, rs, k);
    let pc = m.pc as int;
    let n = m.stack.len() as int;
    reveal_with_fuel(val_balanced, 2);
    reveal_with_fuel(val_in_place, 2);
    reveal_with_fuel(val_coalesced, 2);
    if k >= 1 {
        assert(frame_balanced(code, rs, k));
    }
    lemma_well_formed_at(code, pc);
    lemma_invoke_advances(code, k == 0, e, pc);
    assert(n >= 2);
    assert(val_balanced(code, m.stack[n - 1]));
    assert(val_balanced(code, m.stack[n - 2]));
    assert(val_in_place(code, m.stack[n - 2]));
    assert(val_coalesced(m.stack[n - 2]));
    assert(vals_balanced(code, m.stack.take(n - 2)));
    let rest = m.stack.take(n - 2);
    let arg = m.stack[n - 1];
    match m.stack[n - 2] {
        Val::S2(v1, v2) => {
            lemma_push_balanced(code, rs, pc, 5);
            lemma_push_frame_in_place(code, rs, (pc + 1) as usize, 5);
            lemma_push_frame_coalesced(rs, (pc + 1) as usize, 5);
        },
        Val::D1(Promise::Application(op, operand)) => {
            lemma_push_balanced(code, rs, pc, 10);
            lemma_push_frame_in_place(code, rs, (pc + 1) as usize, 10);
            lemma_push_frame_coalesced(rs, (pc + 1) as usize, 10);
        },
        Val::D1(Promise::Code(at)) => {
            let i = at - 1;
            lemma_well_formed_at(code, i);
            assert(placed(code, 10, code.len() - 1, i));
            let off = code[i]->CheckSuspend_0;
            let end = at - 2 + off;
            assert(promise_end(code, at) == Some(end as usize));
            assert(height(code, at as int) == height(code, i) + delta(code[i]));
            assert(height(code, end + 1) == height(code, end) + delta(code[end]));
            lemma_push_balanced(code, rs, pc, 7);
            lemma_push_frame_in_place(code, rs, (pc + 1) as usize, 7);
            lemma_push_frame_coalesced(rs, (pc + 1) as usize, 7);
            let rs1 = push_frame(rs, (pc + 1) as usize, 7);
            lemma_push_frame_in_place(code, rs1, 5, end as usize);
            lemma_push_frame_coalesced(rs1, 5, end as usize);
            let rs2 = push_frame(rs1, 5, end as usize);
            assert(rs2 == rs1.push((5usize, end as usize)));
            let k2 = rs2.len() - 1;
            lemma_depth_agrees(code, rs2, rs1, k2 - 1);
            assert(exit_of(code, rs2, k2 - 1) == 7);
            assert forall|j: int| 1 <= j < rs2.len() implies #[trigger] frame_balanced(
                code,
                rs2,
                j,
            ) by {
                if j < k2 {
                    assert(frame_balanced(code, rs1, j));
                    lemma_depth_agrees(code, rs2, rs1, j);
                }
            }
        },
        Val::C => {
            assert(machine_balanced(code, Machine { stack: rest, ..m }, 2));
        },
        Val::C1(snap) => {
            let srs = snap.rstack;
            let sk = srs.len() - 1;
            assert(machine_balanced(code, *snap, 2));
            lemma_invoke_advances(code, sk == 0, exit_of(code, srs, sk), snap.pc as int);
        },
        Val::Reprint => {
            assert(val_balanced(code, reprinter(m.cur_char)));
        },
        _ => {},
    }
}

/// Disciplined code keeps the machine balanced, and no step fails: every
/// instruction finds the operands it needs, and `Finish` is reached with
/// one operand and the sentinel alone.  A value that ends the program is
/// balanced.
pub proof fn lemma_step_keeps_balance(code: Seq<OpCode>, m: Machine, input: Option<char>)
    requires
        disciplined(code),
        machine_in_place(code, m),
        machine_coalesced(m),
        machine_balanced(code, m, 0),
    ensures
        step_spec(code, m, input) is Ok,
        match step_spec(code, m, input)->Ok_0.effect {
            Effect::Finish(v) => val_balanced(code, v),
            _ => machine_balanced(code, step_spec(code, m, input)->Ok_0.machine, 0),
        },
{
    if code[m.pc as int] == OpCode::Invoke {
        lemma_invoke_settles(code, m, input);
    } else {
        lemma_plain_op_settles(code, m, input);
    }
    let next = op_spec(code, m, input)->Ok_0;
    if !(next.effect is Finish) {
        lemma_auto_return_balanced(code, next.machine);
    }
}

/// The machine is sound for `code`: in place, coalesced throughout, and
/// balanced.
pub open spec fn sound(code: Seq<OpCode>, m: Machine) -> bool {
    &&& machine_in_place(code, m)
    &&& machine_coalesced(m)
    &&& machine_balanced(code, m, 0)
}

/// A run of disciplined code starts sound.
pub proof fn lemma_initial_sound(code: Seq<OpCode>)
    requires
        disciplined(code),
    ensures
        sound(code, initial(code.len() as usize, 10)),
{
    lemma_initial_in_place(code);
    lemma_initial_balanced(code);
}

/// In disciplined code every step from a sound machine succeeds, and
/// unless it ends the program it leads to a sound machine.
pub proof fn lemma_step_keeps_sound(code: Seq<OpCode>, m: Machine, input: Option<char>)
    requires
        disciplined(code),
        sound(code, m),
    ensures
        step_spec(code, m, input) is Ok,
        !(step_spec(code, m, input)->Ok_0.effect is Finish) ==> sound(
            code,
            step_spec(code, m, input)->Ok_0.machine,
        ),
{
    lemma_step_keeps_balance(code, m, input);
    lemma_step_stays_in_place(code, m, input);
    lemma_step_keeps_coalesced(code, m, input);
}

/// In disciplined code `Finish` is reached cleanly: a sound machine that
/// stands at `Finish` holds exactly one operand, and its return stack is
/// the sentinel alone.
pub proof fn lemma_finish_is_reached_clean(code: Seq<OpCode>, m: Machine)
    requires
        disciplined(code),
        sound(code, m),
        code[m.pc as int] == OpCode::Finish,
    ensures
        m.stack.len() == 1,
        m.rstack == seq![(code.len() as usize, code.len() as usize)],
{
    lemma_step_keeps_sound(code, m, None);
    lemma_finish_is_clean(code, m, None);
}

/// A run of disciplined code from a sound machine never fails: it ends
/// with a value or at the bound on its steps.
pub proof fn lemma_run_never_fails(code: Seq<OpCode>, m: Machine, input: Seq<u8>, fuel: nat)
    requires
        disciplined(code),
        sound(code, m),
    ensures
        !(run_spec(code, m, input, fuel).end is Failed),
        run_spec(code, m, input, fuel).end is OutOfFuel ==> sound(
            code,
            run_spec(code, m, input, fuel).machine,
        ),
    decreases fuel,
{
    if fuel > 0 {
        let reading = if wants_input(code, m) {
            read_spec(input)
        } else {
            Reading { event: None, rest: input }
        };
        lemma_step_keeps_sound(code, m, reading.event);
        let next = step_spec(code, m, reading.event)->Ok_0;
        if !(next.effect is Finish) {
            lemma_run_never_fails(code, next.machine, reading.rest, (fuel - 1) as nat);
        }
    }
}

/// A compiled program without comparisons that fits the range of
/// addresses never fails, on any input and under any bound: it ends with
/// a value, or it is still running when the bound is reached.
pub proof fn lemma_program_never_fails(st: SyntaxTree, input: Seq<u8>, fuel: nat)
    requires
        compare_free(st),
        program(st).len() <= usize::MAX,
    ensures
        !(run_spec(program(st), initial(program(st).len() as usize, 10), input, fuel).end
            is Failed),
{
    lemma_program_is_disciplined(st);
    lemma_initial_sound(program(st));
    lemma_run_never_fails(
        program(st),
        initial(program(st).len() as usize, 10),
        input,
        fuel,
    );
}

/// A source text that parses to a program without comparisons, and
/// whose code fits the range of addresses, runs without failure: what
/// comes back is a value, or the report that the bound was reached.
pub proof fn lemma_source_run_never_fails(source: Seq<char>, input: Seq<u8>, fuel: nat)
    requires
        parse_program(source, 0).result is Ok,
        compare_free(parse_program(source, 0).result->Ok_0),
        program(parse_program(source, 0).result->Ok_0).len() <= usize::MAX,
    ensures
        source_run(source, input, fuel) is Ok,
        !(source_run(source, input, fuel)->Ok_0.end is Failed),
{
    lemma_program_never_fails(parse_program(source, 0).result->Ok_0, input, fuel);
}

} // verus!
