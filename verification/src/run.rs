//! Running programs against a scripted console.
//!
//! A run is a bounded number of machine steps.  Input comes from a
//! prepared sequence of bytes, of which each `Read` decodes one code
//! point, and output is collected, so that a run is a function of the
//! program, the input and the bound alone.

use crate::compile::{compile_toplevel, program, OpCode, D1_APPLICATION_END};
use crate::input::{feed, read_spec, scan, Progress, Reading};
use crate::machine::{step_spec, wants_input, Action, Effect, VmError};
use crate::parse::{parse_program, parse_toplevel, CharPosIterator, ParseError};
use crate::value::{initial, Function, Machine, Val, VmState};
use std::rc::Rc;
use vstd::prelude::*;

verus! {

/// Why a program gave no value.
#[derive(Debug, Clone, Copy, PartialEq, Eq)]
pub enum Error {
    /// The source text is not a program.
    Parse(ParseError),
    /// The machine met a broken invariant.
    Vm(VmError),
    /// The bound on the number of steps was reached first.
    OutOfFuel,
}

/// How a run ended.
#[verifier::ext_equal]
pub enum End {
    /// With this value, through `Finish` or through `E`.
    Done(Val),
    /// With a broken invariant.
    Failed(VmError),
    /// At the bound on the number of steps.
    OutOfFuel,
}

/// A run as a whole.
#[verifier::ext_equal]
pub struct Run {
    /// How it ended.
    pub end: End,
    /// The state it left the machine in: after the last step that
    /// succeeded.
    pub machine: Machine,
    /// The input that it left unread.
    pub rest: Seq<u8>,
    /// What it printed, in order.
    pub output: Seq<char>,
    /// How many times it applied `Read`.
    pub reads: nat,
}

/// The run of at most `fuel` steps from state `m` with the bytes `input`
/// waiting.
///
/// A step that applies `Read` makes one read from the input, as
/// [`read_spec`] says; every other step leaves the input alone.
pub open spec fn run_spec(code: Seq<OpCode>, m: Machine, input: Seq<u8>, fuel: nat) -> Run
    decreases fuel,
{
    if fuel == 0 {
        Run { end: End::OutOfFuel, machine: m, rest: input, output: Seq::empty(), reads: 0 }
    } else {
        let reads = wants_input(code, m);
        let reading = if reads {
            read_spec(input)
        } else {
            Reading { event: None, rest: input }
        };
        let event = reading.event;
        let rest = reading.rest;
        let count: nat = if reads {
            1
        } else {
            0
        };
        match step_spec(code, m, event) {
            Err(e) => Run {
                end: End::Failed(e),
                machine: m,
                rest,
                output: Seq::empty(),
                reads: count,
            },
            Ok(next) => match next.effect {
                Effect::Finish(v) => Run {
                    end: End::Done(v),
                    machine: next.machine,
                    rest,
                    output: Seq::empty(),
                    reads: count,
                },
                Effect::Print(c) => {
                    let later = run_spec(code, next.machine, rest, (fuel - 1) as nat);
                    Run {
                        output: seq![c] + later.output,
                        reads: count + later.reads,
                        ..later
                    }
                },
                Effect::Continue => {
                    let later = run_spec(code, next.machine, rest, (fuel - 1) as nat);
                    Run { reads: count + later.reads, ..later }
                },
            },
        }
    }
}

/// A console with prepared input bytes that collects the output.
#[derive(Debug)]
pub struct Console {
    input: Vec<u8>,
    cursor: usize,
    output: Vec<char>,
}

impl Console {
    /// The input bytes that have not been read.
    pub closed spec fn pending(&self) -> Seq<u8> {
        self.input@.skip(self.cursor as int)
    }

    /// The output so far.
    pub closed spec fn written(&self) -> Seq<char> {
        self.output@
    }

    /// The read position is inside the input.
    pub closed spec fn wf(&self) -> bool {
        self.cursor <= self.input@.len()
    }

    /// A console with `input` waiting and nothing written.
    pub fn new(input: Vec<u8>) -> (console: Console)
        ensures
            console.wf(),
            console.pending() == input@,
            console.written() == Seq::<char>::empty(),
    {
        let console = Console { input, cursor: 0, output: Vec::new() };
        assert(console.input@.skip(0) =~= console.input@);
        console
    }

    /// Reads one code point from the waiting bytes, as [`read_spec`]
    /// says.
    pub fn read(&mut self) -> (c: Option<char>)
        requires
            old(self).wf(),
        ensures
            final(self).wf(),
            final(self).written() == old(self).written(),
            c == read_spec(old(self).pending()).event,
            final(self).pending() == read_spec(old(self).pending()).rest,
    {
        let ghost stream = self.pending();
        let start: usize = self.cursor;
        let mut gathered: Vec<u8> = Vec::new();
        assert(stream.take(0) =~= gathered@);
        loop
            invariant
                self.wf(),
                start == old(self).cursor,
                start <= self.cursor,
                self.input == old(self).input,
                self.output == old(self).output,
                stream == self.input@.skip(start as int),
                gathered@ == stream.take(self.cursor - start),
                scan(stream, self.cursor - start + 1) == read_spec(stream),
            decreases self.input.len() - self.cursor,
        {
            let ghost n = self.cursor - start;
            if self.cursor >= self.input.len() {
                assert(self.input@.skip(self.cursor as int) =~= Seq::<u8>::empty());
                return None;
            }
            let b: u8 = self.input[self.cursor];
            self.cursor = self.cursor + 1;
            assert(stream.take(n).push(b) =~= stream.take(n + 1));
            assert(stream.skip(n + 1) =~= self.input@.skip(self.cursor as int));
            match feed(&mut gathered, Some(b)) {
                Progress::More => {},
                Progress::Done(c) => {
                    return c;
                },
            }
        }
    }

    /// Appends a character to the output.
    pub fn write(&mut self, c: char)
        requires
            old(self).wf(),
        ensures
            final(self).wf(),
            final(self).pending() == old(self).pending(),
            final(self).written() == old(self).written().push(c),
    {
        self.output.push(c);
    }

    /// The output so far.
    pub fn output(&self) -> (out: &Vec<char>)
        ensures
            out@ == self.written(),
    {
        &self.output
    }

    /// How many bytes are still waiting.
    pub fn remaining(&self) -> (n: usize)
        requires
            self.wf(),
        ensures
            n == self.pending().len(),
    {
        self.input.len() - self.cursor
    }
}

/// What a finished run hands back when its model ends with `end`.
pub open spec fn reports<T: View<V = Val>>(r: Result<T, Error>, end: End) -> bool {
    match end {
        End::Done(v) => r is Ok && r->Ok_0@ == v,
        End::Failed(e) => r is Err && r->Err_0 == Error::Vm(e),
        End::OutOfFuel => r is Err && r->Err_0 == Error::OutOfFuel,
    }
}

impl VmState {
    /// Runs the machine from its present state for at most `fuel` steps,
    /// reading from and printing to `console`.
    ///
    /// The result, the output, the input left over and the state in which
    /// the machine is left are those of [`run_spec`].
    pub fn run(&mut self, code: &Vec<OpCode>, console: &mut Console, fuel: u64) -> (r: Result<
        Rc<Function>,
        Error,
    >)
        requires
            old(console).wf(),
        ensures
            final(console).wf(),
            ({
                let run = run_spec(code@, old(self)@, old(console).pending(), fuel as nat);
                &&& reports(r, run.end)
                &&& final(self)@ == run.machine
                &&& final(console).pending() == run.rest
                &&& final(console).written() == old(console).written() + run.output
            }),
    {
        let ghost whole = run_spec(code@, self@, console.pending(), fuel as nat);
        let ghost written = console.written();
        let ghost printed: Seq<char> = Seq::empty();
        let mut left: u64 = fuel;
        assert(written + printed =~= written);
        loop
            invariant
                console.wf(),
                whole == run_spec(code@, old(self)@, old(console).pending(), fuel as nat),
                written == old(console).written(),
                console.written() == written + printed,
                ({
                    let run = run_spec(code@, self@, console.pending(), left as nat);
                    &&& whole.end == run.end
                    &&& whole.machine == run.machine
                    &&& whole.rest == run.rest
                    &&& whole.output == printed + run.output
                }),
            decreases left,
        {
            if left == 0 {
                assert(written + (printed + Seq::<char>::empty()) =~= written + printed);
                return Err(Error::OutOfFuel);
            }
            let ghost m = self@;
            let ghost pending = console.pending();
            let event = if self.wants_input(code) {
                console.read()
            } else {
                None
            };
            let ghost run = run_spec(code@, m, pending, left as nat);
            match self.step(code, event) {
                Err(e) => {
                    assert(written + (printed + run.output) =~= written + printed);
                    return Err(Error::Vm(e));
                },
                Ok(Action::Finish(v)) => {
                    assert(written + (printed + run.output) =~= written + printed);
                    return Ok(v);
                },
                Ok(Action::Print(c)) => {
                    console.write(c);
                    proof {
                        let later = run_spec(code@, self@, console.pending(), (left - 1) as nat);
                        assert(printed + (seq![c] + later.output) =~= printed.push(c)
                            + later.output);
                        assert((written + printed).push(c) =~= written + printed.push(c));
                        printed = printed.push(c);
                    }
                },
                Ok(Action::Continue) => {},
            }
            left = left - 1;
        }
    }
}

/// Runs compiled code from `entry_point` for at most `fuel` steps.
///
/// The run starts with no operands and the sentinel frame; its result,
/// output and left-over input are those of [`run_spec`].
pub fn run_vm(code: &Vec<OpCode>, entry_point: usize, console: &mut Console, fuel: u64) -> (r:
    Result<Rc<Function>, Error>)
    requires
        old(console).wf(),
    ensures
        final(console).wf(),
        ({
            let run = run_spec(
                code@,
                initial(code@.len() as usize, entry_point),
                old(console).pending(),
                fuel as nat,
            );
            &&& reports(r, run.end)
            &&& final(console).pending() == run.rest
            &&& final(console).written() == old(console).written() + run.output
        }),
{
    let mut vm = VmState::new(code.len(), entry_point);
    vm.run(code, console, fuel)
}

/// The characters of a string, in order.
pub fn chars_of(s: &str) -> (v: Vec<char>)
    ensures
        v@ == s@,
{
    let mut v: Vec<char> = Vec::new();
    let n: usize = s.unicode_len();
    let mut i: usize = 0;
    while i < n
        invariant
            n == s@.len(),
            i <= n,
            v@ == s@.take(i as int),
        decreases n - i,
    {
        v.push(s.get_char(i));
        assert(s@.take(i as int).push(s@[i as int]) =~= s@.take(i as int + 1));
        i = i + 1;
    }
    assert(s@.take(n as int) =~= s@);
    v
}

/// What running the source text `source` gives: the parse error, or the
/// run of the compiled program from its entry point.
pub open spec fn source_run(source: Seq<char>, input: Seq<u8>, fuel: nat) -> Result<
    Run,
    ParseError,
> {
    match parse_program(source, 0).result {
        Err(e) => Err(e),
        Ok(tree) => Ok(
            run_spec(
                program(tree),
                initial(program(tree).len() as usize, D1_APPLICATION_END),
                input,
                fuel,
            ),
        ),
    }
}

/// Parses, compiles and runs a program for at most `fuel` steps.
///
/// A text that is no program gives its parse error and leaves the
/// console alone.  Otherwise the result, the output and the left-over
/// input are those of the compiled program's run.
pub fn parse_compile_run(code: &str, console: &mut Console, fuel: u64) -> (r: Result<
    Function,
    Error,
>)
    requires
        old(console).wf(),
    ensures
        final(console).wf(),
        match source_run(code@, old(console).pending(), fuel as nat) {
            Err(e) => {
                &&& r is Err
                &&& r->Err_0 == Error::Parse(e)
                &&& final(console).pending() == old(console).pending()
                &&& final(console).written() == old(console).written()
            },
            Ok(run) => {
                &&& reports(r, run.end)
                &&& final(console).pending() == run.rest
                &&& final(console).written() == old(console).written() + run.output
            },
        },
{
    let mut iterator = CharPosIterator::new(chars_of(code));
    let st = match parse_toplevel(&mut iterator) {
        Err(e) => {
            return Err(Error::Parse(e));
        },
        Ok(st) => st,
    };
    let (ops, entry_point) = compile_toplevel(&st);
    match run_vm(&ops, entry_point, console, fuel) {
        Err(e) => Err(e),
        Ok(v) => Ok((*v).clone()),
    }
}

/// A run that ends with a value and never applies `Read` gives that value
/// on every input and under every bound that lets it end; under a bound
/// at least as large it ends the same way, with the same output.
pub proof fn lemma_run_without_reads_is_determined(
    code: Seq<OpCode>,
    m: Machine,
    input1: Seq<u8>,
    fuel1: nat,
    input2: Seq<u8>,
    fuel2: nat,
)
    requires
        run_spec(code, m, input1, fuel1).end is Done,
        run_spec(code, m, input1, fuel1).reads == 0,
    ensures
        run_spec(code, m, input2, fuel2).end is Done ==> run_spec(code, m, input2, fuel2).end
            == run_spec(code, m, input1, fuel1).end,
        fuel2 >= fuel1 ==> run_spec(code, m, input2, fuel2).end == run_spec(
            code,
            m,
            input1,
            fuel1,
        ).end,
        fuel2 >= fuel1 ==> run_spec(code, m, input2, fuel2).output == run_spec(
            code,
            m,
            input1,
            fuel1,
        ).output,
        fuel2 >= fuel1 ==> run_spec(code, m, input2, fuel2).reads == 0,
    decreases fuel1,
{
    if fuel1 > 0 && fuel2 > 0 {
        assert(!wants_input(code, m));
        match step_spec(code, m, None) {
            Err(e) => {},
            Ok(next) => {
                if !(next.effect is Finish) {
                    lemma_run_without_reads_is_determined(
                        code,
                        next.machine,
                        input1,
                        (fuel1 - 1) as nat,
                        input2,
                        (fuel2 - 1) as nat,
                    );
                }
            },
        }
    }
}

} // verus!
