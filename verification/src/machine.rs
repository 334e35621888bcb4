//! One step of the stack machine, as a function from a state and an input
//! event to the next state and an effect.
//!
//! The machine itself performs no input or output.  A step that applies
//! `Read` consumes the input event it is handed; a step that applies a
//! printer reports the character as its effect.  Whoever drives the
//! machine supplies the events and carries out the effects.

use crate::compile::{
    OpCode, D1_APPLICATION_END, D1_APPLICATION_START, D1_PROMISE_END, D1_PROMISE_START, S2_END,
    S2_START,
};
use crate::value::{
    lemma_push_frame_coalesced, lemma_vals_coalesced_push, lemma_vals_coalesced_take,
    machine_coalesced, primitive, promise_of, push_frame, share, val_coalesced, val_of,
    vals_coalesced, Expression, Function, Machine, Promise, Val, VmState,
};
use std::rc::Rc;
use vstd::prelude::*;

verus! {

/// Why the machine cannot take a step: an invariant of the compiled code
/// or of the machine is broken.
#[derive(Debug, Clone, Copy, PartialEq, Eq)]
pub enum VmError {
    /// The program counter points outside the code.
    PcOutOfRange,
    /// A compile-time placeholder was reached.
    Placeholder,
    /// An instruction needs more operands than the stack holds.
    StackUnderflow,
    /// The return stack is empty.
    ReturnStackUnderflow,
    /// A promise's address does not follow a suspension check.
    BadPromise,
    /// `Finish` was reached with other than one operand, or with return
    /// frames beside the sentinel.
    UncleanFinish,
}

/// What a step asks of its driver.
#[derive(Debug)]
pub enum Action {
    /// Nothing: take the next step.
    Continue,
    /// Write the character, then take the next step.
    Print(char),
    /// The program has ended with this value.
    Finish(Rc<Function>),
}

/// Model of an [`Action`].
#[verifier::ext_equal]
pub enum Effect {
    Continue,
    Print(char),
    Finish(Val),
}

impl View for Action {
    type V = Effect;

    open spec fn view(&self) -> Effect {
        match *self {
            Action::Continue => Effect::Continue,
            Action::Print(c) => Effect::Print(c),
            Action::Finish(f) => Effect::Finish(f@),
        }
    }
}

/// A successful step: the state it leads to and its effect.
#[verifier::ext_equal]
pub struct Next {
    pub machine: Machine,
    pub effect: Effect,
}

/// A step without effect that leads to `m`.
pub open spec fn quiet(m: Machine) -> Result<Next, VmError> {
    Ok(Next { machine: m, effect: Effect::Continue })
}

/// `m` with the program counter moved to the next instruction.
pub open spec fn advance(m: Machine) -> Machine {
    Machine { pc: (m.pc + 1) as usize, ..m }
}

/// `m` after the check for a return: where the counter stands at the top
/// frame's `from`, the frame is dropped and the counter moves to its `to`.
pub open spec fn auto_return(m: Machine) -> Machine {
    if m.rstack.len() > 0 && m.pc == m.rstack.last().1 {
        Machine { pc: m.rstack.last().0, rstack: m.rstack.drop_last(), ..m }
    } else {
        m
    }
}

/// Where forcing the promise of the code at `at` must return from: the
/// `Invoke` that ends the skipped code, found through the suspension
/// check just before `at`.  `None` where `at` follows no such check.
pub open spec fn promise_end(code: Seq<OpCode>, at: usize) -> Option<usize> {
    if 2 <= at && at - 1 < code.len() {
        match code[at - 1] {
            OpCode::CheckSuspend(off) => if at - 2 + off <= usize::MAX {
                Some((at - 2 + off) as usize)
            } else {
                None
            },
            _ => None,
        }
    } else {
        None
    }
}

/// What `Reprint` answers with: a printer of the latched character, or
/// `V` where nothing is latched.
pub open spec fn reprinter(latch: Option<char>) -> Val {
    match latch {
        Some(c) => Val::Dot(c),
        None => Val::V,
    }
}

/// Whether the next step applies `Read`, and so consumes its input event.
pub open spec fn wants_input(code: Seq<OpCode>, m: Machine) -> bool {
    &&& m.pc < code.len()
    &&& m.rstack.len() > 0
    &&& code[m.pc as int] == OpCode::Invoke
    &&& m.stack.len() >= 2
    &&& m.stack[m.stack.len() - 2] == Val::Read
}

/// The application rule: the operand under the top is applied to the top
/// operand.
///
/// Most functions take both operands and leave one, and the counter
/// moves on.  `S2` and the promises of code and of an application set up
/// the operands of their block, add a return frame and jump.  `C`, `Read`,
/// `Reprint` and the promise of a value leave a function and its argument
/// and stay at the `Invoke`, which then applies them.  A comparison leaves
/// its argument and its answer and moves on.
pub open spec fn invoke_spec(code: Seq<OpCode>, m: Machine, input: Option<char>) -> Result<
    Next,
    VmError,
> {
    let n = m.stack.len() as int;
    if n < 2 {
        Err(VmError::StackUnderflow)
    } else {
        let arg = m.stack[n - 1];
        let rest = m.stack.take(n - 2);
        let base = Machine { stack: rest, ..m };
        match m.stack[n - 2] {
            Val::I => quiet(advance(Machine { stack: rest.push(arg), ..m })),
            Val::K => quiet(advance(Machine { stack: rest.push(Val::K1(Box::new(arg))), ..m })),
            Val::K1(v) => quiet(advance(Machine { stack: rest.push(*v), ..m })),
            Val::S => quiet(advance(Machine { stack: rest.push(Val::S1(Box::new(arg))), ..m })),
            Val::S1(v) => quiet(
                advance(Machine { stack: rest.push(Val::S2(v, Box::new(arg))), ..m }),
            ),
            Val::S2(v1, v2) => quiet(
                Machine {
                    stack: rest.push(*v2).push(arg).push(
                        Val::D1(Promise::Application(v2, Box::new(arg))),
                    ).push(*v1).push(arg),
                    rstack: push_frame(m.rstack, (m.pc + 1) as usize, S2_END),
                    pc: S2_START,
                    ..m
                },
            ),
            Val::V => quiet(advance(Machine { stack: rest.push(Val::V), ..m })),
            Val::D => quiet(
                advance(
                    Machine { stack: rest.push(Val::D1(Promise::Value(Box::new(arg)))), ..m },
                ),
            ),
            Val::D1(Promise::Code(at)) => match promise_end(code, at) {
                None => Err(VmError::BadPromise),
                Some(end) => quiet(
                    Machine {
                        stack: rest.push(arg),
                        rstack: push_frame(
                            push_frame(m.rstack, (m.pc + 1) as usize, D1_PROMISE_END),
                            D1_PROMISE_START,
                            end,
                        ),
                        pc: at,
                        ..m
                    },
                ),
            },
            Val::D1(Promise::Value(f)) => quiet(Machine { stack: rest.push(*f).push(arg), ..m }),
            Val::D1(Promise::Application(op, operand)) => quiet(
                Machine {
                    stack: rest.push(arg).push(*op).push(*operand),
                    rstack: push_frame(m.rstack, (m.pc + 1) as usize, D1_APPLICATION_END),
                    pc: D1_APPLICATION_START,
                    ..m
                },
            ),
            Val::C => quiet(
                Machine { stack: rest.push(arg).push(Val::C1(Box::new(base))), ..m },
            ),
            Val::C1(snap) => if snap.rstack.len() == 0 {
                Err(VmError::ReturnStackUnderflow)
            } else if snap.pc == usize::MAX {
                Err(VmError::PcOutOfRange)
            } else {
                quiet(
                    advance(
                        Machine {
                            stack: snap.stack.push(arg),
                            rstack: snap.rstack,
                            pc: snap.pc,
                            cur_char: m.cur_char,
                        },
                    ),
                )
            },
            Val::E => Ok(Next { machine: base, effect: Effect::Finish(arg) }),
            Val::Read => quiet(
                Machine {
                    stack: rest.push(arg).push(
                        if input is Some {
                            Val::I
                        } else {
                            Val::V
                        },
                    ),
                    cur_char: input,
                    ..m
                },
            ),
            Val::Reprint => quiet(
                Machine { stack: rest.push(arg).push(reprinter(m.cur_char)), ..m },
            ),
            Val::Compare(c) => quiet(
                advance(
                    Machine {
                        stack: rest.push(arg).push(
                            if m.cur_char == Some(c) {
                                Val::I
                            } else {
                                Val::V
                            },
                        ),
                        ..m
                    },
                ),
            ),
            Val::Dot(c) => Ok(
                Next {
                    machine: advance(Machine { stack: rest.push(arg), ..m }),
                    effect: Effect::Print(c),
                },
            ),
        }
    }
}

/// What the instruction at the program counter does, before the check
/// for a return.
pub open spec fn op_spec(code: Seq<OpCode>, m: Machine, input: Option<char>) -> Result<
    Next,
    VmError,
> {
    let n = m.stack.len() as int;
    match code[m.pc as int] {
        OpCode::Placeholder => Err(VmError::Placeholder),
        OpCode::PushImmediate(c) => quiet(
            advance(Machine { stack: m.stack.push(primitive(c)), ..m }),
        ),
        OpCode::Swap => if n < 2 {
            Err(VmError::StackUnderflow)
        } else {
            quiet(
                advance(
                    Machine {
                        stack: m.stack.take(n - 2).push(m.stack[n - 1]).push(m.stack[n - 2]),
                        ..m
                    },
                ),
            )
        },
        OpCode::Rot => if n < 3 {
            Err(VmError::StackUnderflow)
        } else {
            quiet(
                advance(
                    Machine {
                        stack: m.stack.take(n - 3).push(m.stack[n - 1]).push(m.stack[n - 3]).push(
                            m.stack[n - 2],
                        ),
                        ..m
                    },
                ),
            )
        },
        OpCode::CheckSuspend(off) => if n < 1 {
            Err(VmError::StackUnderflow)
        } else if m.stack[n - 1] == Val::D {
            if m.pc + off > usize::MAX {
                Err(VmError::PcOutOfRange)
            } else {
                quiet(
                    Machine {
                        stack: m.stack.take(n - 1).push(
                            Val::D1(Promise::Code((m.pc + 1) as usize)),
                        ),
                        pc: (m.pc + off) as usize,
                        ..m
                    },
                )
            }
        } else {
            quiet(advance(m))
        },
        OpCode::CheckDynamicSuspend(off) => if n < 1 {
            Err(VmError::StackUnderflow)
        } else if m.stack[n - 1] == Val::D {
            if n < 4 {
                Err(VmError::StackUnderflow)
            } else if m.pc + off > usize::MAX {
                Err(VmError::PcOutOfRange)
            } else {
                quiet(
                    Machine {
                        stack: m.stack.take(n - 4).push(m.stack[n - 2]),
                        pc: (m.pc + off) as usize,
                        ..m
                    },
                )
            }
        } else if n < 2 {
            Err(VmError::StackUnderflow)
        } else {
            quiet(advance(Machine { stack: m.stack.take(n - 2).push(m.stack[n - 1]), ..m }))
        },
        OpCode::Invoke => invoke_spec(code, m, input),
        OpCode::Finish => if n == 1 && m.rstack.len() == 1 && m.rstack[0] == (
            code.len() as usize,
            code.len() as usize,
        ) {
            Ok(
                Next {
                    machine: Machine { stack: m.stack.take(0), ..m },
                    effect: Effect::Finish(m.stack[0]),
                },
            )
        } else {
            Err(VmError::UncleanFinish)
        },
    }
}

/// One step of the machine: fetch, execute, then check once for a return.
/// A step that ends the program skips the check.
pub open spec fn step_spec(code: Seq<OpCode>, m: Machine, input: Option<char>) -> Result<
    Next,
    VmError,
> {
    if m.pc >= code.len() {
        Err(VmError::PcOutOfRange)
    } else if m.rstack.len() == 0 {
        Err(VmError::ReturnStackUnderflow)
    } else {
        match op_spec(code, m, input) {
            Err(e) => Err(e),
            Ok(next) => if next.effect is Finish {
                Ok(next)
            } else {
                Ok(Next { machine: auto_return(next.machine), effect: next.effect })
            },
        }
    }
}

/// An executable step agrees with its model: on success it reports the
/// model's effect and leaves the model's state; on failure it reports the
/// model's error and leaves the state as it was.
pub open spec fn agrees(
    r: Result<Action, VmError>,
    before: Machine,
    after: Machine,
    want: Result<Next, VmError>,
) -> bool {
    match want {
        Ok(next) => r is Ok && r->Ok_0@ == next.effect && after == next.machine,
        Err(e) => r is Err && r->Err_0 == e && after == before,
    }
}

impl VmState {
    /// Whether the next step applies `Read`, so that its input event
    /// must be a fresh read.
    pub fn wants_input(&self, code: &Vec<OpCode>) -> (b: bool)
        ensures
            b == wants_input(code@, self@),
    {
        let pc: usize = self.pc();
        if pc >= code.len() || self.frames() == 0 || self.depth() < 2 {
            return false;
        }
        match code[pc] {
            OpCode::Invoke => match &**self.peek(1) {
                Function::Read => true,
                _ => false,
            },
            _ => false,
        }
    }

    /// Applies the operand under the top to the top operand, as
    /// [`invoke_spec`] says.
    pub fn invoke(&mut self, code: &Vec<OpCode>, input: Option<char>) -> (r: Result<
        Action,
        VmError,
    >)
        requires
            old(self)@.pc < code@.len(),
            old(self)@.rstack.len() > 0,
        ensures
            agrees(r, old(self)@, final(self)@, invoke_spec(code@, old(self)@, input)),
    {
        if self.depth() < 2 {
            return Err(VmError::StackUnderflow);
        }
        let pc: usize = self.pc();
        let mut end: usize = 0;
        let len: usize = code.len();
        let operator = self.peek(1);
        proof {
            reveal_with_fuel(val_of, 2);
            reveal_with_fuel(promise_of, 2);
        }
        match &**operator {
            Function::D1(Expression::Promise(at)) => {
                let at: usize = *at;
                if at < 2 || at - 1 >= len {
                    return Err(VmError::BadPromise);
                }
                match code[at - 1] {
                    OpCode::CheckSuspend(off) => {
                        if off > usize::MAX - (at - 2) {
                            return Err(VmError::BadPromise);
                        }
                        end = at - 2 + off;
                    },
                    _ => {
                        return Err(VmError::BadPromise);
                    },
                }
            },
            Function::C1(snap) => {
                if snap.frames() == 0 {
                    return Err(VmError::ReturnStackUnderflow);
                }
                if snap.pc() == usize::MAX {
                    return Err(VmError::PcOutOfRange);
                }
            },
            _ => {},
        }
        let ghost before = self@;
        let ghost n = before.stack.len() as int;
        let arg = self.pop();
        let fun = self.pop();
        assert(self@.stack =~= before.stack.take(n - 2));
        assert(arg@ == before.stack[n - 1]);
        assert(fun@ == before.stack[n - 2]);
        match &*fun {
            Function::I => {
                self.push(arg);
                self.set_pc(pc + 1);
                Ok(Action::Continue)
            },
            Function::K => {
                self.push(Rc::new(Function::K1(arg)));
                self.set_pc(pc + 1);
                Ok(Action::Continue)
            },
            Function::K1(v) => {
                self.push(share(v));
                self.set_pc(pc + 1);
                Ok(Action::Continue)
            },
            Function::S => {
                self.push(Rc::new(Function::S1(arg)));
                self.set_pc(pc + 1);
                Ok(Action::Continue)
            },
            Function::S1(v) => {
                self.push(Rc::new(Function::S2(share(v), arg)));
                self.set_pc(pc + 1);
                Ok(Action::Continue)
            },
            Function::S2(v1, v2) => {
                self.push(share(v2));
                self.push(share(&arg));
                self.push(
                    Rc::new(Function::D1(Expression::Application(share(v2), share(&arg)))),
                );
                self.push(share(v1));
                self.push(arg);
                self.push_rstack(pc + 1, S2_END);
                self.set_pc(S2_START);
                Ok(Action::Continue)
            },
            Function::V => {
                self.push(Rc::new(Function::V));
                self.set_pc(pc + 1);
                Ok(Action::Continue)
            },
            Function::D => {
                self.push(Rc::new(Function::D1(Expression::Function(arg))));
                self.set_pc(pc + 1);
                Ok(Action::Continue)
            },
            Function::D1(Expression::Promise(at)) => {
                self.push(arg);
                self.push_rstack(pc + 1, D1_PROMISE_END);
                self.push_rstack(D1_PROMISE_START, end);
                self.set_pc(*at);
                Ok(Action::Continue)
            },
            Function::D1(Expression::Function(f)) => {
                self.push(share(f));
                self.push(arg);
                Ok(Action::Continue)
            },
            Function::D1(Expression::Application(operator, operand)) => {
                self.push(arg);
                self.push(share(operator));
                self.push(share(operand));
                self.push_rstack(pc + 1, D1_APPLICATION_END);
                self.set_pc(D1_APPLICATION_START);
                Ok(Action::Continue)
            },
            Function::C => {
                let saved = self.clone();
                self.push(arg);
                self.push(Rc::new(Function::C1(Box::new(saved))));
                Ok(Action::Continue)
            },
            Function::C1(snap) => {
                self.restore(snap);
                self.push(arg);
                self.set_pc(snap.pc() + 1);
                Ok(Action::Continue)
            },
            Function::E => Ok(Action::Finish(arg)),
            Function::Read => {
                self.set_cur_char(input);
                self.push(arg);
                self.push(
                    Rc::new(
                        if input.is_some() {
                            Function::I
                        } else {
                            Function::V
                        },
                    ),
                );
                Ok(Action::Continue)
            },
            Function::Reprint => {
                let printer = match self.cur_char() {
                    Some(c) => Function::Dot(c),
                    None => Function::V,
                };
                self.push(arg);
                self.push(Rc::new(printer));
                Ok(Action::Continue)
            },
            Function::Compare(c) => {
                let same = match self.cur_char() {
                    Some(d) => d == *c,
                    None => false,
                };
                self.push(arg);
                self.push(
                    Rc::new(
                        if same {
                            Function::I
                        } else {
                            Function::V
                        },
                    ),
                );
                self.set_pc(pc + 1);
                Ok(Action::Continue)
            },
            Function::Dot(c) => {
                self.push(arg);
                self.set_pc(pc + 1);
                Ok(Action::Print(*c))
            },
        }
    }
}

impl VmState {
    /// Takes one step, as [`step_spec`] says: fetches the instruction at
    /// the program counter, executes it, and checks once for a return.
    ///
    /// `input` is the outcome of reading one character, `None` for none;
    /// only a step that applies `Read` looks at it.  A failed step leaves
    /// the machine as it was.
    pub fn step(&mut self, code: &Vec<OpCode>, input: Option<char>) -> (r: Result<
        Action,
        VmError,
    >)
        ensures
            agrees(r, old(self)@, final(self)@, step_spec(code@, old(self)@, input)),
    {
        let pc: usize = self.pc();
        if pc >= code.len() {
            return Err(VmError::PcOutOfRange);
        }
        if self.frames() == 0 {
            return Err(VmError::ReturnStackUnderflow);
        }
        let depth: usize = self.depth();
        let ghost before = self@;
        let ghost n = before.stack.len() as int;
        proof {
            reveal_with_fuel(val_of, 2);
        }
        match code[pc] {
            OpCode::Placeholder => {
                return Err(VmError::Placeholder);
            },
            OpCode::PushImmediate(c) => {
                self.push(Rc::new(Function::from_combinator(c)));
                self.set_pc(pc + 1);
            },
            OpCode::Swap => {
                if depth < 2 {
                    return Err(VmError::StackUnderflow);
                }
                let fst = self.pop();
                let snd = self.pop();
                assert(self@.stack =~= before.stack.take(n - 2));
                self.push(fst);
                self.push(snd);
                self.set_pc(pc + 1);
            },
            OpCode::Rot => {
                if depth < 3 {
                    return Err(VmError::StackUnderflow);
                }
                let fst = self.pop();
                let snd = self.pop();
                let thr = self.pop();
                assert(self@.stack =~= before.stack.take(n - 3));
                self.push(fst);
                self.push(thr);
                self.push(snd);
                self.set_pc(pc + 1);
            },
            OpCode::CheckSuspend(offset) => {
                if depth < 1 {
                    return Err(VmError::StackUnderflow);
                }
                let is_d = match &**self.peek(0) {
                    Function::D => true,
                    _ => false,
                };
                if is_d {
                    if offset > usize::MAX - pc {
                        return Err(VmError::PcOutOfRange);
                    }
                    let _ = self.pop();
                    assert(self@.stack =~= before.stack.take(n - 1));
                    self.push(Rc::new(Function::D1(Expression::Promise(pc + 1))));
                    self.set_pc(pc + offset);
                } else {
                    self.set_pc(pc + 1);
                }
            },
            OpCode::CheckDynamicSuspend(offset) => {
                if depth < 1 {
                    return Err(VmError::StackUnderflow);
                }
                let is_d = match &**self.peek(0) {
                    Function::D => true,
                    _ => false,
                };
                if is_d {
                    if depth < 4 {
                        return Err(VmError::StackUnderflow);
                    }
                    if offset > usize::MAX - pc {
                        return Err(VmError::PcOutOfRange);
                    }
                    let _ = self.pop();
                    let promise = self.pop();
                    let _ = self.pop();
                    let _ = self.pop();
                    assert(self@.stack =~= before.stack.take(n - 4));
                    self.push(promise);
                    self.set_pc(pc + offset);
                } else {
                    if depth < 2 {
                        return Err(VmError::StackUnderflow);
                    }
                    let operator = self.pop();
                    let _ = self.pop();
                    assert(self@.stack =~= before.stack.take(n - 2));
                    self.push(operator);
                    self.set_pc(pc + 1);
                }
            },
            OpCode::Invoke => {
                match self.invoke(code, input) {
                    Err(e) => {
                        return Err(e);
                    },
                    Ok(Action::Finish(v)) => {
                        return Ok(Action::Finish(v));
                    },
                    Ok(Action::Print(c)) => {
                        self.settle();
                        return Ok(Action::Print(c));
                    },
                    Ok(Action::Continue) => {},
                }
            },
            OpCode::Finish => {
                if depth != 1 || self.frames() != 1 {
                    return Err(VmError::UncleanFinish);
                }
                let (to, from) = self.top_frame();
                if to != code.len() || from != code.len() {
                    return Err(VmError::UncleanFinish);
                }
                let v = self.pop();
                assert(self@.stack =~= before.stack.take(0));
                return Ok(Action::Finish(v));
            },
        }
        self.settle();
        Ok(Action::Continue)
    }

    /// The check for a return: where the counter stands at the top
    /// frame's `from`, drops the frame and moves the counter to its `to`.
    pub fn settle(&mut self)
        ensures
            final(self)@ == auto_return(old(self)@),
    {
        if self.frames() > 0 {
            let (to, from) = self.top_frame();
            if self.pc() == from {
                self.set_pc(to);
                self.pop_frame();
            }
        }
    }
}

/// A program that ends through `Finish` ends cleanly: the step started
/// with exactly one operand, which is the result, and with the sentinel
/// as the only return frame.
pub proof fn lemma_finish_is_clean(code: Seq<OpCode>, m: Machine, input: Option<char>)
    requires
        m.pc < code.len(),
        code[m.pc as int] == OpCode::Finish,
        step_spec(code, m, input) is Ok,
    ensures
        m.stack.len() == 1,
        m.rstack == seq![(code.len() as usize, code.len() as usize)],
        step_spec(code, m, input)->Ok_0.effect == Effect::Finish(m.stack[0]),
{
    assert(m.rstack =~= seq![(code.len() as usize, code.len() as usize)]);
}

/// A continuation leads back to where it was captured.
///
/// Let `site` be the machine at an `Invoke`, without the two operands of
/// the application.  Applying `C` to `f` there hands `f` the continuation
/// that holds `site`, at the same `Invoke`.  Applying that continuation to
/// `v`, later and anywhere, goes on exactly as if the application at the
/// site had answered `v`; only the input latch is the later one.
pub proof fn lemma_continuation_round_trip(
    code: Seq<OpCode>,
    site: Machine,
    f: Val,
    later: Machine,
    v: Val,
    input: Option<char>,
)
    requires
        code.len() <= usize::MAX,
        site.pc < code.len(),
        code[site.pc as int] == OpCode::Invoke,
        site.rstack.len() > 0,
        later.pc < code.len(),
        code[later.pc as int] == OpCode::Invoke,
        later.rstack.len() > 0,
    ensures
        ({
            let k = Val::C1(Box::new(site));
            &&& step_spec(code, Machine { stack: site.stack.push(Val::C).push(f), ..site }, input)
                == quiet(auto_return(Machine { stack: site.stack.push(f).push(k), ..site }))
            &&& step_spec(code, Machine { stack: later.stack.push(k).push(v), ..later }, input)
                == step_spec(
                code,
                Machine {
                    stack: site.stack.push(Val::I).push(v),
                    cur_char: later.cur_char,
                    ..site
                },
                input,
            )
        }),
{
    let k = Val::C1(Box::new(site));
    let capture = Machine { stack: site.stack.push(Val::C).push(f), ..site };
    assert(capture.stack.take(capture.stack.len() - 2) =~= site.stack);
    assert(Machine { stack: site.stack, ..capture } =~= site);
    let call = Machine { stack: later.stack.push(k).push(v), ..later };
    assert(call.stack.take(call.stack.len() - 2) =~= later.stack);
    let plain = Machine {
        stack: site.stack.push(Val::I).push(v),
        cur_char: later.cur_char,
        ..site
    };
    assert(plain.stack.take(plain.stack.len() - 2) =~= site.stack);
}

/// Frames are only ever added with coalescing, so no step breaks the
/// rule that adjacent frames cannot be fused: a machine that is coalesced
/// throughout stays so, and a value it ends with is coalesced too.
pub proof fn lemma_step_keeps_coalesced(code: Seq<OpCode>, m: Machine, input: Option<char>)
    requires
        machine_coalesced(m),
        step_spec(code, m, input) is Ok,
    ensures
        machine_coalesced(step_spec(code, m, input)->Ok_0.machine),
        match step_spec(code, m, input)->Ok_0.effect {
            Effect::Finish(v) => val_coalesced(v),
            _ => true,
        },
{
    broadcast use {lemma_vals_coalesced_push, lemma_vals_coalesced_take};

    let next = op_spec(code, m, input)->Ok_0;
    let n = m.stack.len() as int;
    reveal_with_fuel(val_coalesced, 3);
    lemma_push_frame_coalesced(m.rstack, (m.pc + 1) as usize, S2_END);
    lemma_push_frame_coalesced(m.rstack, (m.pc + 1) as usize, D1_PROMISE_END);
    lemma_push_frame_coalesced(m.rstack, (m.pc + 1) as usize, D1_APPLICATION_END);
    assert(vals_coalesced(m.stack.take(0)));
    if n >= 1 {
        assert(val_coalesced(m.stack[n - 1]));
        assert(vals_coalesced(m.stack.take(n - 1)));
    }
    if n >= 2 {
        assert(val_coalesced(m.stack[n - 2]));
        assert(vals_coalesced(m.stack.take(n - 2)));
    }
    if n >= 3 {
        assert(val_coalesced(m.stack[n - 3]));
        assert(vals_coalesced(m.stack.take(n - 3)));
    }
    if n >= 4 {
        assert(vals_coalesced(m.stack.take(n - 4)));
    }
    match code[m.pc as int] {
        OpCode::Invoke => {
            match m.stack[n - 2] {
                Val::D1(Promise::Code(at)) => {
                    lemma_push_frame_coalesced(
                        push_frame(m.rstack, (m.pc + 1) as usize, D1_PROMISE_END),
                        D1_PROMISE_START,
                        promise_end(code, at)->Some_0,
                    );
                },
                Val::C => {
                    assert(machine_coalesced(Machine { stack: m.stack.take(n - 2), ..m }));
                },
                Val::Reprint => {
                    assert(val_coalesced(reprinter(m.cur_char)));
                },
                _ => {},
            }
        },
        _ => {},
    }
    assert(machine_coalesced(next.machine));
    lemma_auto_return_coalesced(next.machine);
}

/// Dropping the top frame on a return keeps a machine coalesced
/// throughout.
pub proof fn lemma_auto_return_coalesced(m: Machine)
    requires
        machine_coalesced(m),
    ensures
        machine_coalesced(auto_return(m)),
{
    let out = auto_return(m);
    assert forall|i: int| 0 <= i && i + 1 < out.rstack.len() implies (#[trigger] out.rstack[i]).1
        != out.rstack[i + 1].0 by {
        assert(m.rstack[i].1 != m.rstack[i + 1].0);
    }
}

} // verus!
