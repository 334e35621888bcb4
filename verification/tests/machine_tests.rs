use std::rc::Rc;

use relambda::parse::to_lower;
use relambda::run::chars_of;
use relambda::{
    compile_toplevel, feed, parse_compile_run, parse_toplevel, run_vm, Action, CharPosIterator,
    Combinator, Console, Error, Expression, Function, OpCode, ParseError, Progress, VmError,
    VmState,
};

const FUEL: u64 = 1_000_000;

fn compile_str(source: &str) -> (Vec<OpCode>, usize) {
    let tree = parse_toplevel(&mut CharPosIterator::new(source.chars().collect())).unwrap();
    compile_toplevel(&tree)
}

fn run_with(source: &str, input: &str) -> (Result<Function, Error>, String, usize) {
    run_with_bytes(source, input.as_bytes())
}

fn run_with_bytes(source: &str, input: &[u8]) -> (Result<Function, Error>, String, usize) {
    let mut console = Console::new(input.to_vec());
    let result = parse_compile_run(source, &mut console, FUEL);
    let output: String = console.output().iter().collect();
    (result, output, console.remaining())
}

fn microcode() -> Vec<OpCode> {
    vec![
        OpCode::Invoke,
        OpCode::CheckDynamicSuspend(4),
        OpCode::Rot,
        OpCode::Invoke,
        OpCode::Invoke,
        OpCode::Swap,
        OpCode::Invoke,
        OpCode::Invoke,
        OpCode::Swap,
        OpCode::Invoke,
    ]
}

#[test]
fn compiles_a_combinator() {
    let (code, entry) = compile_str("k");
    let mut expected = microcode();
    expected.push(OpCode::PushImmediate(Combinator::K));
    expected.push(OpCode::Finish);
    assert_eq!(entry, 10);
    assert_eq!(code, expected);
}

#[test]
fn compiles_an_application_with_its_suspension_offset() {
    let (code, entry) = compile_str("`i`ks");
    let mut expected = microcode();
    expected.extend(vec![
        OpCode::PushImmediate(Combinator::I),
        OpCode::CheckSuspend(6),
        OpCode::PushImmediate(Combinator::K),
        OpCode::CheckSuspend(3),
        OpCode::PushImmediate(Combinator::S),
        OpCode::Invoke,
        OpCode::Invoke,
        OpCode::Finish,
    ]);
    assert_eq!(entry, 10);
    assert_eq!(code, expected);
    assert!(!code.contains(&OpCode::Placeholder));
}

#[test]
fn from_combinator_maps_each_primitive() {
    assert_eq!(Function::from_combinator(Combinator::I), Function::I);
    assert_eq!(Function::from_combinator(Combinator::K), Function::K);
    assert_eq!(Function::from_combinator(Combinator::S), Function::S);
    assert_eq!(Function::from_combinator(Combinator::V), Function::V);
    assert_eq!(Function::from_combinator(Combinator::D), Function::D);
    assert_eq!(Function::from_combinator(Combinator::C), Function::C);
    assert_eq!(Function::from_combinator(Combinator::E), Function::E);
    assert_eq!(Function::from_combinator(Combinator::Read), Function::Read);
    assert_eq!(
        Function::from_combinator(Combinator::Reprint),
        Function::Reprint
    );
    assert_eq!(
        Function::from_combinator(Combinator::Compare('q')),
        Function::Compare('q')
    );
    assert_eq!(
        Function::from_combinator(Combinator::Dot('q')),
        Function::Dot('q')
    );
}

#[test]
fn to_lower_touches_ascii_capitals_only() {
    assert_eq!(to_lower('A'), 'a');
    assert_eq!(to_lower('Z'), 'z');
    assert_eq!(to_lower('k'), 'k');
    assert_eq!(to_lower('@'), '@');
    assert_eq!(to_lower('['), '[');
    assert_eq!(to_lower('É'), 'É');
}

#[test]
fn chars_of_keeps_every_character() {
    assert_eq!(chars_of("`.é k"), vec!['`', '.', 'é', ' ', 'k']);
    assert_eq!(chars_of(""), Vec::<char>::new());
}

#[test]
fn new_machine_has_only_the_sentinel() {
    let vm = VmState::new(12, 10);
    assert_eq!(vm.pc(), 10);
    assert_eq!(vm.depth(), 0);
    assert_eq!(vm.frames(), 1);
    assert_eq!(vm.top_frame(), (12, 12));
    assert_eq!(vm.cur_char(), None);
    let empty = VmState::default();
    assert_eq!(empty.pc(), 0);
    assert_eq!(empty.depth(), 0);
    assert_eq!(empty.frames(), 0);
}

#[test]
fn push_rstack_pushes_when_the_top_fires_elsewhere() {
    let mut vm = VmState::new(20, 10);
    vm.push_rstack(11, 5);
    assert_eq!(vm.frames(), 2);
    assert_eq!(vm.top_frame(), (11, 5));
}

#[test]
fn push_rstack_fuses_into_a_top_that_fires_at_the_target() {
    let mut vm = VmState::new(20, 10);
    vm.push_rstack(11, 5);
    // The top frame fires at 5, and the new frame would return to 5.
    vm.push_rstack(5, 7);
    assert_eq!(vm.frames(), 2);
    assert_eq!(vm.top_frame(), (11, 7));
    // After the push the two top frames cannot be fused.
    vm.push_rstack(3, 9);
    assert_eq!(vm.frames(), 3);
    assert_eq!(vm.top_frame(), (3, 9));
}

#[test]
fn clones_copy_the_value() {
    let mut vm = VmState::new(20, 10);
    vm.push(Rc::new(Function::K1(Rc::new(Function::S))));
    vm.push_rstack(11, 5);
    let copy = vm.clone();
    assert_eq!(copy, vm);
    let k = Function::C1(Box::new(copy));
    assert_eq!(k.clone(), k);
    let promise = Function::D1(Expression::Application(
        Rc::new(Function::I),
        Rc::new(Function::V),
    ));
    assert_eq!(promise.clone(), promise);
    assert_eq!(
        Expression::Promise(12).clone(),
        Expression::Promise(12)
    );
    assert_eq!(*vm.pop(), Function::K1(Rc::new(Function::S)));
    assert_eq!(vm.depth(), 0);
}

#[test]
fn step_pushes_swaps_and_rotates() {
    let code = vec![
        OpCode::PushImmediate(Combinator::I),
        OpCode::PushImmediate(Combinator::K),
        OpCode::PushImmediate(Combinator::S),
        OpCode::Rot,
        OpCode::Swap,
        OpCode::Finish,
    ];
    let mut vm = VmState::new(code.len(), 0);
    for _ in 0..3 {
        assert!(matches!(vm.step(&code, None), Ok(Action::Continue)));
    }
    assert_eq!(vm.depth(), 3);
    // [I, K, S] becomes [S, I, K]: the top goes under the two below it.
    assert!(matches!(vm.step(&code, None), Ok(Action::Continue)));
    assert_eq!(**vm.peek(0), Function::K);
    assert_eq!(**vm.peek(1), Function::I);
    assert_eq!(**vm.peek(2), Function::S);
    // [S, I, K] becomes [S, K, I].
    assert!(matches!(vm.step(&code, None), Ok(Action::Continue)));
    assert_eq!(**vm.peek(0), Function::I);
    assert_eq!(**vm.peek(1), Function::K);
    assert_eq!(vm.pc(), 5);
    // Three operands at the end: the program does not end cleanly.
    assert!(matches!(
        vm.step(&code, None),
        Err(VmError::UncleanFinish)
    ));
    assert_eq!(vm.depth(), 3);
    assert_eq!(vm.pc(), 5);
}

#[test]
fn check_suspend_turns_d_into_a_promise_of_the_next_address() {
    let code = vec![
        OpCode::PushImmediate(Combinator::D),
        OpCode::CheckSuspend(3),
        OpCode::PushImmediate(Combinator::I),
        OpCode::Invoke,
        OpCode::Finish,
    ];
    let mut vm = VmState::new(code.len(), 0);
    assert!(matches!(vm.step(&code, None), Ok(Action::Continue)));
    assert!(matches!(vm.step(&code, None), Ok(Action::Continue)));
    assert_eq!(vm.pc(), 4);
    assert_eq!(**vm.peek(0), Function::D1(Expression::Promise(2)));
    match vm.step(&code, None) {
        Ok(Action::Finish(v)) => assert_eq!(*v, Function::D1(Expression::Promise(2))),
        other => panic!("unexpected step result {:?}", other),
    }
}

#[test]
fn step_reports_each_broken_invariant() {
    let code = vec![OpCode::Placeholder, OpCode::Invoke, OpCode::Swap];
    let mut vm = VmState::new(code.len(), 0);
    assert!(matches!(vm.step(&code, None), Err(VmError::Placeholder)));
    let mut vm = VmState::new(code.len(), 1);
    assert!(matches!(
        vm.step(&code, None),
        Err(VmError::StackUnderflow)
    ));
    let mut vm = VmState::new(code.len(), 2);
    assert!(matches!(
        vm.step(&code, None),
        Err(VmError::StackUnderflow)
    ));
    let mut vm = VmState::new(code.len(), 3);
    assert!(matches!(vm.step(&code, None), Err(VmError::PcOutOfRange)));
    let mut vm = VmState::default();
    assert!(matches!(
        vm.step(&code, None),
        Err(VmError::ReturnStackUnderflow)
    ));
    // A promise whose address follows no suspension check.
    let mut vm = VmState::new(code.len(), 1);
    vm.push(Rc::new(Function::D1(Expression::Promise(2))));
    vm.push(Rc::new(Function::I));
    assert!(matches!(vm.step(&code, None), Err(VmError::BadPromise)));
    // A failed step leaves the machine as it was.
    assert_eq!(vm.depth(), 2);
    assert_eq!(vm.pc(), 1);
    assert_eq!(vm.frames(), 1);
}

#[test]
fn run_vm_executes_compiled_code() {
    let (code, entry) = compile_str("``ksi");
    let mut console = Console::new(Vec::new());
    let result = run_vm(&code, entry, &mut console, FUEL).unwrap();
    assert_eq!(*result, Function::S);
    assert!(console.output().is_empty());
}

#[test]
fn parse_errors_come_back_through_parse_compile_run() {
    let (result, output, left) = run_with("`i", "abc");
    assert_eq!(result, Err(Error::Parse(ParseError::UnexpectedEof)));
    assert_eq!(output, "");
    assert_eq!(left, 3);
}

#[test]
fn dot_prints_exactly_its_characters() {
    let (result, output, _) = run_with("`r`.i`.Hi", "");
    assert_eq!(result, Ok(Function::I));
    assert_eq!(output, "Hi\n");
}

#[test]
fn forced_promise_prints_when_applied() {
    // The promise holds `ir unevaluated; applying it prints the line break.
    let (result, output, _) = run_with("``d`iri", "");
    assert_eq!(result, Ok(Function::I));
    assert_eq!(output, "\n");
    // Left alone, the promise prints nothing.
    let (result, output, _) = run_with("`d`r.x", "");
    assert!(matches!(result, Ok(Function::D1(Expression::Promise(_)))));
    assert_eq!(output, "");
}

#[test]
fn read_latches_one_character_per_application() {
    let (result, _, left) = run_with("`@i", "xy");
    assert_eq!(result, Ok(Function::I));
    assert_eq!(left, 1);
    let (result, _, left) = run_with("`@i", "");
    assert_eq!(result, Ok(Function::V));
    assert_eq!(left, 0);
}

#[test]
fn reprint_answers_a_printer_of_the_latch() {
    let (result, output, _) = run_with("``@i`|i", "x");
    assert_eq!(result, Ok(Function::Dot('x')));
    assert_eq!(output, "");
    // Nothing latched: void.
    let (result, _, _) = run_with("`|i", "x");
    assert_eq!(result, Ok(Function::V));
    // Echo one character.
    let (result, output, left) = run_with("``@|i", "zq");
    assert_eq!(result, Ok(Function::I));
    assert_eq!(output, "z");
    assert_eq!(left, 1);
}

#[test]
fn compare_leaves_argument_and_answer_on_the_stack() {
    let (code, entry) = compile_str("`?xi");
    let mut vm = VmState::new(code.len(), entry);
    for _ in 0..4 {
        assert!(matches!(vm.step(&code, None), Ok(Action::Continue)));
    }
    assert_eq!(vm.depth(), 2);
    assert_eq!(**vm.peek(0), Function::V);
    assert_eq!(**vm.peek(1), Function::I);
    assert_eq!(vm.pc(), code.len() - 1);
    let (result, _, _) = run_with("`?xi", "");
    assert_eq!(result, Err(Error::Vm(VmError::UncleanFinish)));
}

#[test]
fn exit_ends_the_program_with_its_argument() {
    let (result, output, _) = run_with("`.a`ek", "");
    assert_eq!(result, Ok(Function::K));
    assert_eq!(output, "");
    let (result, output, _) = run_with("``.ai`e`.bs", "");
    assert_eq!(result, Ok(Function::S));
    assert_eq!(output, "ab");
}

#[test]
fn void_swallows_its_argument() {
    let (result, _, _) = run_with("``vks", "");
    assert_eq!(result, Ok(Function::V));
}

#[test]
fn partial_applications_hold_their_arguments() {
    let (result, _, _) = run_with("`ki", "");
    assert_eq!(result, Ok(Function::K1(Rc::new(Function::I))));
    let (result, _, _) = run_with("``skv", "");
    assert_eq!(
        result,
        Ok(Function::S2(Rc::new(Function::K), Rc::new(Function::V)))
    );
}

#[test]
fn substitution_whose_left_part_gives_d_yields_a_delayed_application() {
    // ```s`kd`k.xi: ``kdi is D, so ``k.xi is put off rather than evaluated.
    let (code, entry) = compile_str("```s`kd`k.xi");
    let mut console = Console::new(Vec::new());
    let result = run_vm(&code, entry, &mut console, FUEL).unwrap();
    assert_eq!(
        *result,
        Function::D1(Expression::Application(
            Rc::new(Function::K1(Rc::new(Function::Dot('x')))),
            Rc::new(Function::I)
        ))
    );
    // Applying the delayed application runs it: ``k.xi is .x, which
    // prints and answers its argument.
    let (result, output, _) = run_with("````s`kd`k.xis", "");
    assert_eq!(result, Ok(Function::S));
    assert_eq!(output, "x");
    // Where the left part gives something else, nothing is put off.
    let (result, output, _) = run_with("```sd`k.xi", "");
    assert_eq!(result, Ok(Function::Dot('x')));
    assert_eq!(output, "");
}

#[test]
fn continuation_is_a_value_until_applied() {
    let (result, _, _) = run_with("`ci", "");
    assert!(matches!(result, Ok(Function::C1(_))));
    // The function hands s to its continuation: s is the answer at the
    // capture site.
    let (result, _, _) = run_with("`c``si`ks", "");
    assert_eq!(result, Ok(Function::S));
    // The continuation cuts off the printer that waits around the call.
    let (result, output, _) = run_with("`c``s`k.a``si`ks", "");
    assert_eq!(result, Ok(Function::S));
    assert_eq!(output, "");
}

#[test]
fn runs_stop_at_the_step_bound() {
    let mut console = Console::new(Vec::new());
    let result = parse_compile_run("```sii``sii", &mut console, 10_000);
    assert_eq!(result, Err(Error::OutOfFuel));
    let mut console = Console::new(Vec::new());
    assert_eq!(
        parse_compile_run("`ii", &mut console, 3),
        Err(Error::OutOfFuel)
    );
    let mut console = Console::new(Vec::new());
    assert_eq!(parse_compile_run("`ii", &mut console, 5), Ok(Function::I));
}

#[test]
fn runs_without_reads_do_not_depend_on_input_or_bound() {
    let source = "`````s`kc``s`k`s`k`k`ki``ss`k`kkiks";
    let (first, _, _) = run_with(source, "");
    let (second, _, left) = run_with(source, "some input");
    assert_eq!(first, Ok(Function::K));
    assert_eq!(second, Ok(Function::K));
    assert_eq!(left, 10);
    let mut console = Console::new(Vec::new());
    assert_eq!(
        parse_compile_run(source, &mut console, u64::MAX),
        Ok(Function::K)
    );
}

#[test]
fn a_promise_is_told_apart_from_other_values() {
    let (promise, _, _) = run_with("`d`ir", "");
    let promise = promise.unwrap();
    assert!(matches!(promise, Function::D1(_)));
    assert_ne!(promise, Function::I);
    assert_ne!(promise, Function::D);
    assert_ne!(promise, Function::Dot('\n'));
}

#[test]
fn finish_hands_back_the_single_operand() {
    let code = vec![OpCode::PushImmediate(Combinator::K), OpCode::Finish];
    let mut vm = VmState::new(code.len(), 0);
    assert!(matches!(vm.step(&code, None), Ok(Action::Continue)));
    match vm.step(&code, None) {
        Ok(Action::Finish(v)) => assert_eq!(*v, Function::K),
        other => panic!("unexpected step result {:?}", other),
    }
    // An extra return frame makes the end unclean.
    let mut vm = VmState::new(code.len(), 0);
    vm.push_rstack(0, 7);
    assert!(matches!(vm.step(&code, None), Ok(Action::Continue)));
    assert!(matches!(
        vm.step(&code, None),
        Err(VmError::UncleanFinish)
    ));
}

#[test]
fn wants_input_only_before_a_read() {
    let (code, entry) = compile_str("`@i");
    let mut vm = VmState::new(code.len(), entry);
    assert!(!vm.wants_input(&code));
    for _ in 0..3 {
        assert!(!vm.wants_input(&code));
        assert!(matches!(vm.step(&code, None), Ok(Action::Continue)));
    }
    assert!(vm.wants_input(&code));
    assert!(matches!(vm.step(&code, Some('q')), Ok(Action::Continue)));
    assert_eq!(vm.cur_char(), Some('q'));
    assert!(!vm.wants_input(&code));
}

#[test]
fn printing_step_reports_the_character() {
    let (code, entry) = compile_str("`.xi");
    let mut vm = VmState::new(code.len(), entry);
    for _ in 0..3 {
        assert!(matches!(vm.step(&code, None), Ok(Action::Continue)));
    }
    assert!(matches!(vm.step(&code, None), Ok(Action::Print('x'))));
    match vm.step(&code, None) {
        Ok(Action::Finish(v)) => assert_eq!(*v, Function::I),
        other => panic!("unexpected step result {:?}", other),
    }
}

#[test]
fn feed_finishes_on_a_complete_code_point() {
    let mut gathered: Vec<u8> = Vec::new();
    assert_eq!(feed(&mut gathered, Some(0x41)), Progress::Done(Some('A')));
    assert!(gathered.is_empty());
    assert_eq!(feed(&mut gathered, Some(0xe2)), Progress::More);
    assert_eq!(feed(&mut gathered, Some(0x82)), Progress::More);
    assert_eq!(gathered, vec![0xe2, 0x82]);
    assert_eq!(feed(&mut gathered, Some(0xac)), Progress::Done(Some('\u{20ac}')));
    assert!(gathered.is_empty());
}

#[test]
fn feed_gives_up_on_bytes_that_are_not_utf8_and_at_the_end() {
    let mut gathered: Vec<u8> = Vec::new();
    assert_eq!(feed(&mut gathered, Some(0xff)), Progress::More);
    assert_eq!(feed(&mut gathered, Some(0x61)), Progress::More);
    assert_eq!(feed(&mut gathered, Some(0x62)), Progress::More);
    assert_eq!(feed(&mut gathered, Some(0x63)), Progress::Done(None));
    assert!(gathered.is_empty());
    assert_eq!(feed(&mut gathered, None), Progress::Done(None));
    assert_eq!(feed(&mut gathered, Some(0xc3)), Progress::More);
    assert_eq!(feed(&mut gathered, None), Progress::Done(None));
    assert!(gathered.is_empty());
}

#[test]
fn console_reads_one_code_point_at_a_time() {
    let mut console = Console::new("a\u{20ac}".as_bytes().to_vec());
    assert_eq!(console.remaining(), 4);
    assert_eq!(console.read(), Some('a'));
    assert_eq!(console.remaining(), 3);
    assert_eq!(console.read(), Some('\u{20ac}'));
    assert_eq!(console.remaining(), 0);
    assert_eq!(console.read(), None);
    console.write('x');
    console.write('\u{e9}');
    assert_eq!(console.output(), &vec!['x', '\u{e9}']);
}

#[test]
fn read_decodes_multi_byte_input() {
    let (result, output, left) = run_with("``@|i", "\u{20ac}x");
    assert_eq!(result, Ok(Function::I));
    assert_eq!(output, "\u{20ac}");
    assert_eq!(left, 1);
}

#[test]
fn read_of_bad_bytes_reads_no_character() {
    // Four bytes that form no code point are dropped together.
    let (result, _, left) = run_with_bytes("`@i", &[0xff, 0x61, 0x62, 0x63, 0x64]);
    assert_eq!(result, Ok(Function::V));
    assert_eq!(left, 1);
    // The input ends inside a code point.
    let (result, _, left) = run_with_bytes("`@i", &[0xe2, 0x82]);
    assert_eq!(result, Ok(Function::V));
    assert_eq!(left, 0);
    // After a failed read the latch is empty.
    let (result, _, _) = run_with_bytes("``@i``@i`|i", &[0x61, 0xc3]);
    assert_eq!(result, Ok(Function::V));
}

#[test]
fn forcing_a_promise_pushes_two_frames_and_jumps_to_its_code() {
    let (code, entry) = compile_str("``d`iri");
    assert_eq!(code[11], OpCode::CheckSuspend(6));
    assert_eq!(code[16], OpCode::Invoke);
    let mut vm = VmState::new(code.len(), entry);
    for _ in 0..4 {
        assert!(matches!(vm.step(&code, None), Ok(Action::Continue)));
    }
    assert_eq!(vm.pc(), 19);
    assert_eq!(**vm.peek(1), Function::D1(Expression::Promise(12)));
    assert!(matches!(vm.step(&code, None), Ok(Action::Continue)));
    // The inner frame fires at the Invoke that ends the promise's code
    // and returns into the block that applies the forced value.
    assert_eq!(vm.pc(), 12);
    assert_eq!(vm.depth(), 1);
    assert_eq!(vm.frames(), 3);
    assert_eq!(vm.top_frame(), (5, 16));
}

#[test]
fn substitution_enters_its_block_with_five_operands() {
    let (code, entry) = compile_str("```skss");
    let mut vm = VmState::new(code.len(), entry);
    let mut steps = 0;
    while vm.pc() != 0 {
        assert!(matches!(vm.step(&code, None), Ok(Action::Continue)));
        steps += 1;
        assert!(steps < 100);
    }
    assert_eq!(vm.depth(), 5);
    assert_eq!(vm.frames(), 2);
    assert_eq!(vm.top_frame(), (code.len() - 1, 5));
    assert_eq!(**vm.peek(0), Function::S);
    assert_eq!(**vm.peek(1), Function::K);
    assert_eq!(
        **vm.peek(2),
        Function::D1(Expression::Application(
            Rc::new(Function::S),
            Rc::new(Function::S)
        ))
    );
    assert_eq!(**vm.peek(3), Function::S);
    assert_eq!(**vm.peek(4), Function::S);
}

#[test]
fn programs_without_comparisons_never_break_the_machine() {
    let sources = [
        "i",
        "`ii",
        "```skss",
        "``d`iri",
        "`d`ir",
        "```sddk",
        "``cii",
        "`c``s`kr``si`ki",
        "```s`kd`k.xi",
        "`````s`kc``s`k`s`k`k`ki``ss`k`kkiks",
        "```sii``sii",
        "``@|`c`@|",
        "`r``d`.ai`e.b",
        "````s`kd`k.xi`ci",
    ];
    for source in sources.iter() {
        let mut console = Console::new("abc".as_bytes().to_vec());
        let result = parse_compile_run(source, &mut console, 5_000);
        assert!(
            !matches!(result, Err(Error::Vm(_)) | Err(Error::Parse(_))),
            "{} gave {:?}",
            source,
            result
        );
    }
}

#[test]
fn return_stack_stays_coalesced_while_a_program_runs() {
    let (code, entry) = compile_str("`````s`kc``s`k`s`k`k`ki``ss`k`kkiks");
    let mut vm = VmState::new(code.len(), entry);
    let mut steps = 0;
    loop {
        match vm.step(&code, None) {
            Ok(Action::Finish(v)) => {
                assert_eq!(*v, Function::K);
                break;
            }
            Ok(_) => (),
            Err(e) => panic!("step failed: {:?}", e),
        }
        // A frame is never left standing at the address where it fires.
        if vm.frames() >= 2 {
            assert_ne!(vm.top_frame().1, vm.pc());
        }
        steps += 1;
        assert!(steps < 10_000);
    }
}

#[test]
fn dynamic_suspension_keeps_the_promise_or_the_operator() {
    let code = vec![OpCode::CheckDynamicSuspend(2), OpCode::Finish, OpCode::Finish];
    // The operator is D: the promise under it stays, the two operands
    // below go, and the counter jumps.
    let mut vm = VmState::new(code.len(), 0);
    vm.push(Rc::new(Function::K));
    vm.push(Rc::new(Function::S));
    vm.push(Rc::new(Function::V));
    vm.push(Rc::new(Function::D));
    assert!(matches!(vm.step(&code, None), Ok(Action::Continue)));
    assert_eq!(vm.depth(), 1);
    assert_eq!(**vm.peek(0), Function::V);
    assert_eq!(vm.pc(), 2);
    // Any other operator: the promise goes, the operator stays.
    let mut vm = VmState::new(code.len(), 0);
    vm.push(Rc::new(Function::K));
    vm.push(Rc::new(Function::V));
    vm.push(Rc::new(Function::I));
    assert!(matches!(vm.step(&code, None), Ok(Action::Continue)));
    assert_eq!(vm.depth(), 2);
    assert_eq!(**vm.peek(0), Function::I);
    assert_eq!(**vm.peek(1), Function::K);
    assert_eq!(vm.pc(), 1);
    // D with fewer than four operands.
    let mut vm = VmState::new(code.len(), 0);
    vm.push(Rc::new(Function::S));
    vm.push(Rc::new(Function::V));
    vm.push(Rc::new(Function::D));
    assert!(matches!(
        vm.step(&code, None),
        Err(VmError::StackUnderflow)
    ));
    assert_eq!(vm.depth(), 3);
}

#[test]
fn jumps_past_the_range_of_addresses_are_refused() {
    let code = vec![
        OpCode::Swap,
        OpCode::Swap,
        OpCode::CheckSuspend(usize::MAX),
        OpCode::Invoke,
    ];
    let mut vm = VmState::new(code.len(), 2);
    vm.push(Rc::new(Function::D));
    assert!(matches!(vm.step(&code, None), Err(VmError::PcOutOfRange)));
    assert_eq!(**vm.peek(0), Function::D);
    // A promise whose suspension check jumps out of range.
    let mut vm = VmState::new(code.len(), 3);
    vm.push(Rc::new(Function::D1(Expression::Promise(3))));
    vm.push(Rc::new(Function::I));
    assert!(matches!(vm.step(&code, None), Err(VmError::BadPromise)));
    // A promise at an address with no room for a check before it.
    let mut vm = VmState::new(code.len(), 3);
    vm.push(Rc::new(Function::D1(Expression::Promise(0))));
    vm.push(Rc::new(Function::I));
    assert!(matches!(vm.step(&code, None), Err(VmError::BadPromise)));
}

#[test]
fn continuations_of_broken_machines_are_refused() {
    let code = vec![OpCode::Invoke, OpCode::Finish];
    // A continuation without return frames.
    let mut vm = VmState::new(code.len(), 0);
    vm.push(Rc::new(Function::C1(Box::new(VmState::default()))));
    vm.push(Rc::new(Function::I));
    assert!(matches!(
        vm.step(&code, None),
        Err(VmError::ReturnStackUnderflow)
    ));
    assert_eq!(vm.depth(), 2);
    // A continuation at the last address there is.
    let mut vm = VmState::new(code.len(), 0);
    vm.push(Rc::new(Function::C1(Box::new(VmState::new(
        code.len(),
        usize::MAX,
    )))));
    vm.push(Rc::new(Function::I));
    assert!(matches!(vm.step(&code, None), Err(VmError::PcOutOfRange)));
    // A sound one replaces the stacks and moves on from its own counter.
    let mut snap = VmState::new(code.len(), 0);
    snap.push(Rc::new(Function::K));
    let mut vm = VmState::new(code.len(), 0);
    vm.push(Rc::new(Function::S));
    vm.push(Rc::new(Function::C1(Box::new(snap))));
    vm.push(Rc::new(Function::V));
    assert!(matches!(vm.step(&code, None), Ok(Action::Continue)));
    assert_eq!(vm.depth(), 2);
    assert_eq!(**vm.peek(0), Function::V);
    assert_eq!(**vm.peek(1), Function::K);
    assert_eq!(vm.pc(), 1);
}

#[test]
fn capture_leaves_the_function_and_the_continuation() {
    let code = vec![OpCode::Invoke, OpCode::Finish];
    let mut vm = VmState::new(code.len(), 0);
    vm.push(Rc::new(Function::S));
    vm.push(Rc::new(Function::C));
    vm.push(Rc::new(Function::K));
    assert!(matches!(vm.step(&code, None), Ok(Action::Continue)));
    assert_eq!(vm.pc(), 0);
    assert_eq!(vm.depth(), 3);
    assert_eq!(**vm.peek(1), Function::K);
    let mut site = VmState::new(code.len(), 0);
    site.push(Rc::new(Function::S));
    assert_eq!(**vm.peek(0), Function::C1(Box::new(site)));
}
