//! Function values and machine states, with their mathematical models.
//!
//! The executable types share structure through reference counting and
//! hold their stacks in vectors.  Contracts speak of the models instead:
//! [`Val`], [`Promise`] and [`Machine`], plain trees and sequences.

use crate::parse::Combinator;
use std::rc::Rc;
use vstd::prelude::*;

verus! {

/// Every value of the language is a unary function.
#[derive(Debug, PartialEq, Eq)]
pub enum Function {
    /// Identity.
    I,
    /// Constant maker.
    K,
    /// `K` applied once: answers the held value whatever it is given.
    K1(Rc<Function>),
    /// Substitution.
    S,
    /// `S` applied once.
    S1(Rc<Function>),
    /// `S` applied twice.
    S2(Rc<Function>, Rc<Function>),
    /// Void: swallows its argument and answers itself.
    V,
    /// Delay: its argument is packaged unevaluated.
    D,
    /// A promise, forced when it is applied.
    D1(Expression),
    /// Call with current continuation.
    C,
    /// A continuation: the machine as it stood at the capture.
    C1(Box<VmState>),
    /// Exit: its argument becomes the program's result.
    E,
    /// Reads one character into the latch.
    Read,
    /// Answers a printer of the latched character.
    Reprint,
    /// Compares the latched character with its own.
    Compare(char),
    /// Prints its character, then behaves as `I`.
    Dot(char),
}

/// What a promise holds until it is forced.
#[derive(Debug, PartialEq, Eq)]
pub enum Expression {
    /// The address of compiled code that was skipped.
    Promise(usize),
    /// A value that `D` met at run time.
    Function(Rc<Function>),
    /// An operator and an operand whose application was put off.
    Application(Rc<Function>, Rc<Function>),
}

/// The state of the machine: operand stack, return stack of
/// `(to, from)` frames, program counter and the input latch.
#[derive(Debug, PartialEq, Eq)]
pub struct VmState {
    pub(crate) stack: Vec<Rc<Function>>,
    pub(crate) rstack: Vec<(usize, usize)>,
    pub(crate) pc: usize,
    pub(crate) cur_char: Option<char>,
}

/// Model of a function value.
#[verifier::ext_equal]
pub enum Val {
    I,
    K,
    K1(Box<Val>),
    S,
    S1(Box<Val>),
    S2(Box<Val>, Box<Val>),
    V,
    D,
    D1(Promise),
    C,
    C1(Box<Machine>),
    E,
    Read,
    Reprint,
    Compare(char),
    Dot(char),
}

/// Model of a promise's content.
#[verifier::ext_equal]
pub enum Promise {
    Code(usize),
    Value(Box<Val>),
    Application(Box<Val>, Box<Val>),
}

/// Model of a machine state.
#[verifier::ext_equal]
pub struct Machine {
    pub stack: Seq<Val>,
    pub rstack: Seq<(usize, usize)>,
    pub pc: usize,
    pub cur_char: Option<char>,
}

/// The model of a function value.
pub open spec fn val_of(f: Function) -> Val
    decreases f,
{
    match f {
        Function::I => Val::I,
        Function::K => Val::K,
        Function::K1(v) => Val::K1(Box::new(val_of(*v))),
        Function::S => Val::S,
        Function::S1(v) => Val::S1(Box::new(val_of(*v))),
        Function::S2(v, w) => Val::S2(Box::new(val_of(*v)), Box::new(val_of(*w))),
        Function::V => Val::V,
        Function::D => Val::D,
        Function::D1(e) => Val::D1(promise_of(e)),
        Function::C => Val::C,
        Function::C1(m) => Val::C1(Box::new(machine_of(*m))),
        Function::E => Val::E,
        Function::Read => Val::Read,
        Function::Reprint => Val::Reprint,
        Function::Compare(c) => Val::Compare(c),
        Function::Dot(c) => Val::Dot(c),
    }
}

/// The model of a promise's content.
pub open spec fn promise_of(e: Expression) -> Promise
    decreases e,
{
    match e {
        Expression::Promise(at) => Promise::Code(at),
        Expression::Function(f) => Promise::Value(Box::new(val_of(*f))),
        Expression::Application(f, x) => Promise::Application(
            Box::new(val_of(*f)),
            Box::new(val_of(*x)),
        ),
    }
}

/// The model of a machine state.
pub closed spec fn machine_of(vm: VmState) -> Machine
    decreases vm,
{
    Machine {
        stack: vals_of(vm.stack@),
        rstack: vm.rstack@,
        pc: vm.pc,
        cur_char: vm.cur_char,
    }
}

/// The models of the values on a stack, bottom first.
pub open spec fn vals_of(s: Seq<Rc<Function>>) -> Seq<Val>
    decreases s,
{
    if s.len() == 0 {
        Seq::empty()
    } else {
        vals_of(s.drop_last()).push(val_of(*s.last()))
    }
}

impl View for Function {
    type V = Val;

    open spec fn view(&self) -> Val {
        val_of(*self)
    }
}

impl View for Expression {
    type V = Promise;

    open spec fn view(&self) -> Promise {
        promise_of(*self)
    }
}

impl View for VmState {
    type V = Machine;

    open spec fn view(&self) -> Machine {
        machine_of(*self)
    }
}

/// The primitive function that a combinator of the source denotes.
pub open spec fn primitive(c: Combinator) -> Val {
    match c {
        Combinator::I => Val::I,
        Combinator::K => Val::K,
        Combinator::S => Val::S,
        Combinator::V => Val::V,
        Combinator::D => Val::D,
        Combinator::C => Val::C,
        Combinator::E => Val::E,
        Combinator::Read => Val::Read,
        Combinator::Reprint => Val::Reprint,
        Combinator::Compare(ch) => Val::Compare(ch),
        Combinator::Dot(ch) => Val::Dot(ch),
    }
}

/// The return stack after a frame `(to, from)` is added with coalescing:
/// a frame that would return to where the top frame fires is fused into
/// it.
pub open spec fn push_frame(rs: Seq<(usize, usize)>, to: usize, from: usize) -> Seq<
    (usize, usize),
> {
    if rs.len() > 0 && rs.last().1 == to {
        rs.drop_last().push((rs.last().0, from))
    } else {
        rs.push((to, from))
    }
}

/// The top frame does not return to the place where the frame below it
/// fires: the two could not be fused.
pub open spec fn top_unfused(rs: Seq<(usize, usize)>) -> bool {
    rs.len() >= 2 ==> rs[rs.len() - 2].1 != rs.last().0
}

/// No frame returns to the place where the frame below it fires.
pub open spec fn coalesced(rs: Seq<(usize, usize)>) -> bool {
    forall|i: int| 0 <= i && i + 1 < rs.len() ==> (#[trigger] rs[i]).1 != rs[i + 1].0
}

/// The model of a stack has the stack's length.
pub proof fn lemma_vals_len(s: Seq<Rc<Function>>)
    ensures
        vals_of(s).len() == s.len(),
    decreases s.len(),
{
    if s.len() > 0 {
        lemma_vals_len(s.drop_last());
    }
}

/// The model of a stack holds the models of its values, place by place.
pub proof fn lemma_vals_index(s: Seq<Rc<Function>>, i: int)
    requires
        0 <= i < s.len(),
    ensures
        vals_of(s).len() == s.len(),
        vals_of(s)[i] == val_of(*s[i]),
    decreases s.len(),
{
    lemma_vals_len(s);
    lemma_vals_len(s.drop_last());
    if i < s.len() - 1 {
        lemma_vals_index(s.drop_last(), i);
    }
}

/// Pushing a value pushes its model.
pub proof fn lemma_vals_push(s: Seq<Rc<Function>>, x: Rc<Function>)
    ensures
        vals_of(s.push(x)) == vals_of(s).push(val_of(*x)),
{
    assert(s.push(x).drop_last() =~= s);
}

/// Dropping the top value drops its model.
pub proof fn lemma_vals_drop_last(s: Seq<Rc<Function>>)
    requires
        s.len() > 0,
    ensures
        vals_of(s).len() == s.len(),
        vals_of(s.drop_last()) == vals_of(s).drop_last(),
        vals_of(s).last() == val_of(*s.last()),
{
    lemma_vals_len(s);
    lemma_vals_len(s.drop_last());
    assert(vals_of(s).drop_last() =~= vals_of(s.drop_last()));
}

/// `Rc::clone`: a second handle to the same value, which is left as it
/// is.
#[verifier::external_body]
pub(crate) fn share(f: &Rc<Function>) -> (r: Rc<Function>)
    ensures
        r == *f,
{
    Rc::clone(f)
}

impl Function {
    /// The primitive function for a combinator of the source.
    pub fn from_combinator(c: Combinator) -> (f: Function)
        ensures
            f@ == primitive(c),
    {
        match c {
            Combinator::I => Function::I,
            Combinator::K => Function::K,
            Combinator::S => Function::S,
            Combinator::V => Function::V,
            Combinator::D => Function::D,
            Combinator::C => Function::C,
            Combinator::E => Function::E,
            Combinator::Read => Function::Read,
            Combinator::Reprint => Function::Reprint,
            Combinator::Compare(ch) => Function::Compare(ch),
            Combinator::Dot(ch) => Function::Dot(ch),
        }
    }

}

impl Clone for Function {
    /// A value of its own with the same model; what it holds stays
    /// shared, and a continuation's state is copied.
    fn clone(&self) -> (f: Function)
        ensures
            f@ == self@,
    {
        match self {
            Function::I => Function::I,
            Function::K => Function::K,
            Function::K1(v) => Function::K1(share(v)),
            Function::S => Function::S,
            Function::S1(v) => Function::S1(share(v)),
            Function::S2(v, w) => Function::S2(share(v), share(w)),
            Function::V => Function::V,
            Function::D => Function::D,
            Function::D1(e) => Function::D1(e.clone()),
            Function::C => Function::C,
            Function::C1(m) => Function::C1(Box::new((**m).clone())),
            Function::E => Function::E,
            Function::Read => Function::Read,
            Function::Reprint => Function::Reprint,
            Function::Compare(c) => Function::Compare(*c),
            Function::Dot(c) => Function::Dot(*c),
        }
    }
}

impl Clone for Expression {
    /// A promise content of its own with the same model.
    fn clone(&self) -> (e: Expression)
        ensures
            e@ == self@,
    {
        match self {
            Expression::Promise(at) => Expression::Promise(*at),
            Expression::Function(f) => Expression::Function(share(f)),
            Expression::Application(f, x) => Expression::Application(share(f), share(x)),
        }
    }
}

impl Clone for VmState {
    /// A copy of the machine with the same model; the values stay shared.
    fn clone(&self) -> (vm: VmState)
        ensures
            vm@ == self@,
    {
        let mut stack: Vec<Rc<Function>> = Vec::new();
        let mut i: usize = 0;
        while i < self.stack.len()
            invariant
                i <= self.stack.len(),
                stack@ == self.stack@.take(i as int),
            decreases self.stack.len() - i,
        {
            let f = share(&self.stack[i]);
            stack.push(f);
            assert(self.stack@.take(i as int).push(self.stack@[i as int]) =~= self.stack@.take(
                i as int + 1,
            ));
            i = i + 1;
        }
        assert(self.stack@.take(i as int) =~= self.stack@);
        let mut rstack: Vec<(usize, usize)> = Vec::new();
        let mut j: usize = 0;
        while j < self.rstack.len()
            invariant
                j <= self.rstack.len(),
                rstack@ == self.rstack@.take(j as int),
            decreases self.rstack.len() - j,
        {
            rstack.push(self.rstack[j]);
            assert(self.rstack@.take(j as int).push(self.rstack@[j as int]) =~= self.rstack@.take(
                j as int + 1,
            ));
            j = j + 1;
        }
        assert(self.rstack@.take(j as int) =~= self.rstack@);
        VmState { stack, rstack, pc: self.pc, cur_char: self.cur_char }
    }
}

impl Default for VmState {
    /// The empty machine: no operands, no frames, counter at zero, latch
    /// empty.
    fn default() -> (vm: VmState)
        ensures
            vm@ == (Machine {
                stack: Seq::empty(),
                rstack: Seq::empty(),
                pc: 0,
                cur_char: None,
            }),
    {
        VmState { stack: Vec::new(), rstack: Vec::new(), pc: 0, cur_char: None }
    }
}

impl VmState {
    /// The machine at the start of a run of code of length `code_len`:
    /// no operands, the counter at `entry_point`, and one sentinel frame
    /// that fires only past the end of the code.
    pub fn new(code_len: usize, entry_point: usize) -> (vm: VmState)
        ensures
            vm@ == initial(code_len, entry_point),
    {
        let mut rstack: Vec<(usize, usize)> = Vec::new();
        rstack.push((code_len, code_len));
        let vm = VmState { stack: Vec::new(), rstack, pc: entry_point, cur_char: None };
        assert(vm@.rstack =~= seq![(code_len, code_len)]);
        vm
    }

    /// The program counter.
    pub fn pc(&self) -> (pc: usize)
        ensures
            pc == self@.pc,
    {
        self.pc
    }

    /// The latched input character.
    pub fn cur_char(&self) -> (c: Option<char>)
        ensures
            c == self@.cur_char,
    {
        self.cur_char
    }

    /// The number of operands.
    pub fn depth(&self) -> (n: usize)
        ensures
            n == self@.stack.len(),
    {
        proof {
            lemma_vals_len(self.stack@);
        }
        self.stack.len()
    }

    /// The number of return frames.
    pub fn frames(&self) -> (n: usize)
        ensures
            n == self@.rstack.len(),
    {
        self.rstack.len()
    }

    /// The top return frame.
    pub fn top_frame(&self) -> (frame: (usize, usize))
        requires
            self@.rstack.len() > 0,
        ensures
            frame == self@.rstack.last(),
    {
        self.rstack[self.rstack.len() - 1]
    }

    /// The operand `below` places under the top.
    pub fn peek(&self, below: usize) -> (f: &Rc<Function>)
        requires
            below < self@.stack.len(),
        ensures
            f@ == self@.stack[self@.stack.len() - 1 - below],
    {
        proof {
            lemma_vals_len(self.stack@);
            lemma_vals_index(self.stack@, self.stack@.len() - 1 - below);
        }
        &self.stack[self.stack.len() - 1 - below]
    }

    /// Pushes an operand.
    pub fn push(&mut self, f: Rc<Function>)
        ensures
            final(self)@ == (Machine { stack: old(self)@.stack.push(f@), ..old(self)@ }),
    {
        proof {
            lemma_vals_push(self.stack@, f);
        }
        self.stack.push(f);
    }

    /// Pops the top operand.
    pub fn pop(&mut self) -> (f: Rc<Function>)
        requires
            old(self)@.stack.len() > 0,
        ensures
            f@ == old(self)@.stack.last(),
            final(self)@ == (Machine { stack: old(self)@.stack.drop_last(), ..old(self)@ }),
    {
        proof {
            lemma_vals_drop_last(self.stack@);
        }
        self.stack.pop().unwrap()
    }

    /// Moves the program counter.
    pub(crate) fn set_pc(&mut self, pc: usize)
        ensures
            final(self)@ == (Machine { pc, ..old(self)@ }),
    {
        self.pc = pc;
    }

    /// Latches an input character, or clears the latch.
    pub(crate) fn set_cur_char(&mut self, c: Option<char>)
        ensures
            final(self)@ == (Machine { cur_char: c, ..old(self)@ }),
    {
        self.cur_char = c;
    }

    /// Drops the top return frame.
    pub(crate) fn pop_frame(&mut self)
        requires
            old(self)@.rstack.len() > 0,
        ensures
            final(self)@ == (Machine { rstack: old(self)@.rstack.drop_last(), ..old(self)@ }),
    {
        let _ = self.rstack.pop();
    }

    /// Adds the return frame `(to, from)`, fusing it into the top frame
    /// where that frame fires at `to`.
    ///
    /// Afterwards the top frame does not return to where the frame below
    /// it fires, provided that this held before; and a return stack that
    /// was coalesced all the way down stays so.
    pub fn push_rstack(&mut self, to: usize, from: usize)
        requires
            old(self)@.rstack.len() > 0,
        ensures
            final(self)@ == (Machine {
                rstack: push_frame(old(self)@.rstack, to, from),
                ..old(self)@
            }),
            final(self)@.rstack.len() > 0,
            coalesced(old(self)@.rstack) ==> coalesced(final(self)@.rstack),
            top_unfused(old(self)@.rstack) ==> top_unfused(final(self)@.rstack),
    {
        let last = self.rstack.len() - 1;
        let (then_to, then_from) = self.rstack[last];
        if then_from == to {
            self.rstack[last] = (then_to, from);
            assert(self.rstack@ =~= push_frame(old(self).rstack@, to, from));
        } else {
            self.rstack.push((to, from));
        }
        proof {
            if coalesced(old(self)@.rstack) {
                lemma_push_frame_coalesced(old(self)@.rstack, to, from);
            }
            if top_unfused(old(self)@.rstack) {
                lemma_push_frame_top_unfused(old(self)@.rstack, to, from);
            }
        }
    }

    /// Replaces both stacks and the counter by those of `snap`; the latch
    /// stays.
    pub(crate) fn restore(&mut self, snap: &VmState)
        ensures
            final(self)@ == (Machine { cur_char: old(self)@.cur_char, ..snap@ }),
    {
        let copy = snap.clone();
        self.stack = copy.stack;
        self.rstack = copy.rstack;
        self.pc = copy.pc;
    }
}

/// The model of the machine at the start of a run.
pub open spec fn initial(code_len: usize, entry_point: usize) -> Machine {
    Machine {
        stack: Seq::empty(),
        rstack: seq![(code_len, code_len)],
        pc: entry_point,
        cur_char: None,
    }
}

/// After a frame is added with coalescing the top frame does not
/// return to where the frame below it fires, provided that this held
/// before.
pub proof fn lemma_push_frame_top_unfused(rs: Seq<(usize, usize)>, to: usize, from: usize)
    requires
        top_unfused(rs),
    ensures
        top_unfused(push_frame(rs, to, from)),
{
}

/// Adding a frame with coalescing keeps a coalesced return stack
/// coalesced.
pub proof fn lemma_push_frame_coalesced(rs: Seq<(usize, usize)>, to: usize, from: usize)
    requires
        coalesced(rs),
    ensures
        coalesced(push_frame(rs, to, from)),
{
    let out = push_frame(rs, to, from);
    assert forall|i: int| 0 <= i && i + 1 < out.len() implies (#[trigger] out[i]).1 != out[i
        + 1].0 by {
        if rs.len() > 0 && rs.last().1 == to {
            if i + 1 < rs.len() - 1 {
                assert(rs[i].1 != rs[i + 1].0);
            } else {
                assert(rs[i].1 != rs[i + 1].0);
            }
        } else {
            if i + 1 < rs.len() {
                assert(rs[i].1 != rs[i + 1].0);
            }
        }
    }
}

/// A promise is told apart from every value that is no promise: their
/// models differ, whatever the promise holds.
pub proof fn lemma_promise_distinct(p: Function, f: Function)
    requires
        p is D1,
        !(f is D1),
    ensures
        p@ is D1,
        !(f@ is D1),
        p@ != f@,
{
}

/// Every continuation inside `v` holds a machine that is coalesced
/// throughout.
pub open spec fn val_coalesced(v: Val) -> bool
    decreases v,
{
    match v {
        Val::K1(a) => val_coalesced(*a),
        Val::S1(a) => val_coalesced(*a),
        Val::S2(a, b) => val_coalesced(*a) && val_coalesced(*b),
        Val::D1(Promise::Value(a)) => val_coalesced(*a),
        Val::D1(Promise::Application(a, b)) => val_coalesced(*a) && val_coalesced(*b),
        Val::C1(m) => machine_coalesced(*m),
        _ => true,
    }
}

/// The return stack of `m` is coalesced, and so is that of every
/// continuation that `m` holds, at any depth.
pub open spec fn machine_coalesced(m: Machine) -> bool
    decreases m,
{
    &&& coalesced(m.rstack)
    &&& vals_coalesced(m.stack)
}

/// Every value of `s` is coalesced.
pub open spec fn vals_coalesced(s: Seq<Val>) -> bool
    decreases s,
{
    forall|i: int| 0 <= i < s.len() ==> val_coalesced(#[trigger] s[i])
}

/// Pushing a coalesced value keeps a stack coalesced.
pub broadcast proof fn lemma_vals_coalesced_push(s: Seq<Val>, v: Val)
    requires
        vals_coalesced(s),
        val_coalesced(v),
    ensures
        #[trigger] vals_coalesced(s.push(v)),
{
    assert forall|i: int| 0 <= i < s.push(v).len() implies val_coalesced(
        #[trigger] s.push(v)[i],
    ) by {
        if i < s.len() {
            assert(val_coalesced(s[i]));
        }
    }
}

/// The lower part of a coalesced stack is coalesced.
pub broadcast proof fn lemma_vals_coalesced_take(s: Seq<Val>, k: int)
    requires
        vals_coalesced(s),
        0 <= k <= s.len(),
    ensures
        #[trigger] vals_coalesced(s.take(k)),
{
    assert forall|i: int| 0 <= i < s.take(k).len() implies val_coalesced(
        #[trigger] s.take(k)[i],
    ) by {
        assert(val_coalesced(s[i]));
    }
}

/// A run starts coalesced throughout.
pub proof fn lemma_initial_coalesced(code_len: usize, entry_point: usize)
    ensures
        machine_coalesced(initial(code_len, entry_point)),
{
}

} // verus!
