//! Programs that are assembled, set up by the library, and run by the virtual machine.
use std::collections::VecDeque;
use std::sync::Arc;

use miden_assembly::Assembler;
use miden_assembly::DefaultSourceManager;
use miden_core::advice::AdviceInputs;
use miden_core::mast::MastForest;
use miden_core::program::Program;
use miden_debug::debug::memory::{FormatType, MemoryReadError, NativePtr, ReadMemoryExpr, Type};
use miden_debug::debug::op::{TraceEvent, OP_END};
use miden_debug::debug::stacktrace::CallFrame;
use miden_debug::config::DebuggerConfig;
use miden_debug::exec::advice::{AdviceMutation, Felt, Word};
use miden_debug::exec::dap::{
    DapConfig, DapExecutorFactory, DapSession, FoundSource, Place, StepMode, StepResult, StepSeen,
};
use miden_debug::exec::executor::{
    Dependency, ExecutionConfig, Executor, Library, ResolvedDependency,
};
use miden_debug::exec::host::{DebuggerHost, HandlerCall};
use miden_debug::exec::options::{RunOptions, StackInputs};
use miden_debug::exec::protocol::{DapBody, DapCommand, DapReply, MachineState, SCOPE_MEMORY, SCOPE_STACK};
use miden_debug::exec::snapshot::ReplaySnapshot;
use miden_debug::exec::state::{look_ahead, DebugExecutor, StepError, StepOutcome};
use miden_debug::exec::trace::{Cells, ExecutionTrace};
use miden_debug::trace::{FunctionTrace, TraceStep};
use miden_debug::ui::breakpoint::BreakpointType;
use miden_debug::ui::state::{is_linked, DebugMode, State};
use miden_debug_types::{Location, SourceFile, SourceSpan};
use miden_processor::{BaseHost, ProcessorState, SyncHost, TraceError};

/// The library's host, as the virtual machine wants it.
struct TestHost<'a> {
    host: &'a mut DebuggerHost,
    calls: Vec<HandlerCall>,
}

impl BaseHost for TestHost<'_> {
    fn get_label_and_source_file(
        &self,
        _location: &Location,
    ) -> (SourceSpan, Option<Arc<SourceFile>>) {
        (SourceSpan::default(), None)
    }

    fn on_trace(&mut self, process: &ProcessorState, trace_id: u32) -> Result<(), TraceError> {
        let clk: u32 = process.clock().into();
        self.calls.extend(self.host.on_trace(clk, trace_id));
        Ok(())
    }
}

impl SyncHost for TestHost<'_> {
    fn get_mast_forest(&self, node_digest: &miden_core::Word) -> Option<Arc<MastForest>> {
        self.host.get_mast_forest(word_of(node_digest))
    }

    fn on_event(
        &mut self,
        _process: &ProcessorState<'_>,
    ) -> Result<Vec<miden_processor::advice::AdviceMutation>, miden_processor::event::EventError> {
        let changes = self.host.on_event();
        Ok(changes
            .iter()
            .map(|change| match change {
                AdviceMutation::ExtendStack { values } => {
                    miden_processor::advice::AdviceMutation::extend_stack(
                        values.iter().map(|e| miden_core::Felt::new_unchecked(e.value)),
                    )
                }
                _ => panic!("only the stack is extended here"),
            })
            .collect())
    }
}

fn word_of(word: &miden_core::Word) -> Word {
    let e: Vec<Felt> = word.iter().map(|e| felt(e.as_canonical_u64())).collect();
    Word { a: e[0], b: e[1], c: e[2], d: e[3] }
}

fn felt(value: u64) -> Felt {
    Felt { value }
}

fn felts(values: &[u64]) -> Vec<Felt> {
    values.iter().map(|value| felt(*value)).collect()
}

fn assemble(source: &str) -> Arc<Program> {
    Arc::new(
        Assembler::new(Arc::new(DefaultSourceManager::default()))
            .assemble_program(source)
            .expect("failed to assemble test program"),
    )
}

fn step(
    executor: &mut DebugExecutor,
    host: &mut DebuggerHost,
) -> Result<Option<CallFrame>, StepError> {
    let ctx = match executor.begin_step()? {
        Some(ctx) => ctx,
        None => return Ok(None),
    };
    let next = look_ahead(&ctx).expect("the next batch exists");
    let mut test_host = TestHost { host, calls: Vec::new() };
    let outcome = match executor.processor.step_sync(&mut test_host, ctx) {
        Ok(Some(ctx)) => StepOutcome::Running(ctx),
        Ok(None) => StepOutcome::Completed,
        Err(e) => StepOutcome::Failed(StepError { message: e.to_string() }),
    };
    for call in test_host.calls {
        executor.callstack.record_event(call.clk, call.event);
    }
    executor.step(next.op, next.asmop, outcome)
}

fn collect(executor: &mut DebugExecutor, host: &mut DebuggerHost) -> FunctionTrace {
    let mut steps = Vec::new();
    let mut error = None;
    while !executor.stopped {
        let previous_cycle = executor.cycle;
        if let Err(e) = step(executor, host) {
            error = Some(e.message);
            break;
        }
        steps.push(TraceStep::of(executor, previous_cycle));
    }
    FunctionTrace::collect(&steps, error)
}

fn run(executor: DebugExecutor, mut host: DebuggerHost) -> ExecutionTrace {
    let mut executor = executor;
    while !executor.stopped {
        step(&mut executor, &mut host).expect("the program runs to its end");
    }
    executor.into_execution_trace()
}

fn run_source(source: &str, args: &[u64]) -> ExecutionTrace {
    let (executor, host) = Executor::new(felts(args)).into_debug(&assemble(source)).unwrap();
    run(executor, host)
}

#[test]
fn traces_procedure_transitions() {
    let program = assemble("proc foo push.1 push.2 add drop end begin exec.foo push.3 drop end");
    let (mut debug_executor, mut host) = Executor::new(Vec::new()).into_debug(&program).unwrap();
    let trace = collect(&mut debug_executor, &mut host);

    assert!(trace.error().is_none(), "execution failed: {:?}", trace.error());
    assert!(!trace.entries().is_empty(), "expected at least one transition");
    assert!(
        trace.totals().iter().any(|t| t.procedure.ends_with("foo")),
        "expected a transition into `foo`, got: {:?}",
        trace.totals()
    );
    let summed: usize = trace.totals().iter().map(|t| t.totals.cycles).sum();
    assert_eq!(summed, trace.total_cycles(), "per-function cycles must sum to the total");
    assert_eq!(trace.total_cycles(), debug_executor.cycle);
    let entered: usize = trace.totals().iter().map(|t| t.totals.entries).sum();
    assert_eq!(entered, trace.entries().len());
}

#[test]
fn the_result_is_on_the_stack() {
    let trace = run_source("begin add mul end", &[2, 3, 7]);
    assert_eq!(trace.outputs().elements[0], 35);
    assert_eq!(trace.outputs().elements.len(), 16);
    assert_eq!(trace.parse_result(2), Some(vec![0, 35]));
    assert_eq!(trace.parse_result(17), None);
    assert_eq!(trace.into_outputs().elements[1], 0);
}

#[test]
fn a_stopped_program_stays_as_it_is() {
    let (mut executor, mut host) =
        Executor::new(Vec::new()).into_debug(&assemble("begin push.1 drop end")).unwrap();
    while !executor.stopped {
        step(&mut executor, &mut host).unwrap();
    }
    let cycle = executor.cycle;
    assert!(step(&mut executor, &mut host).unwrap().is_none());
    assert_eq!(executor.cycle, cycle);
    assert!(executor.stopped);
}

#[test]
fn a_failed_program_fails_again_in_the_same_way() {
    let (mut executor, mut host) =
        Executor::new(felts(&[5])).into_debug(&assemble("begin assert end")).unwrap();
    let mut first = None;
    while first.is_none() {
        first = step(&mut executor, &mut host).err();
    }
    let first = first.unwrap();
    assert!(executor.stopped);
    assert!(!first.message.is_empty());
    let again = step(&mut executor, &mut host).unwrap_err();
    assert_eq!(again.message, first.message);
}

#[test]
fn failures_are_part_of_the_trace() {
    let (mut executor, mut host) =
        Executor::new(felts(&[5])).into_debug(&assemble("begin push.1 drop assert end")).unwrap();
    let trace = collect(&mut executor, &mut host);
    assert!(trace.error().is_some());
    assert!(trace.total_cycles() > 0);
}

#[test]
fn operations_are_known_before_they_run() {
    let (mut executor, mut host) =
        Executor::new(Vec::new()).into_debug(&assemble("begin push.7 drop end")).unwrap();
    let mut seen = Vec::new();
    while !executor.stopped {
        step(&mut executor, &mut host).unwrap();
        if let Some(op) = executor.current_op {
            seen.push(op.text());
        }
        assert!(executor.recent.len() <= 5);
    }
    assert!(seen.contains(&String::from("push(7)")), "got {seen:?}");
    assert!(seen.contains(&String::from("drop")), "got {seen:?}");
    assert!(seen.contains(&String::from("end")), "got {seen:?}");
    assert_eq!(executor.recent[executor.recent.len() - 1].code, OP_END);
}

#[test]
fn instructions_carry_their_procedure() {
    let (mut executor, mut host) =
        Executor::new(Vec::new()).into_debug(&assemble("begin push.1 push.2 add drop end")).unwrap();
    let mut found = false;
    while !executor.stopped {
        step(&mut executor, &mut host).unwrap();
        if let Some(asmop) = &executor.current_asmop {
            assert!(!asmop.context_name.is_empty());
            found = found || asmop.op == "add";
        }
    }
    assert!(found);
}

#[test]
fn frames_start_and_end() {
    let source = "proc foo push.1 drop end begin trace.240 exec.foo trace.252 push.2 drop end";
    let (mut executor, mut host) =
        Executor::new(Vec::new()).into_debug(&assemble(source)).unwrap();
    let mut deepest = 0;
    let mut left = 0;
    while !executor.stopped {
        if step(&mut executor, &mut host).unwrap().is_some() {
            left += 1;
        }
        deepest = deepest.max(executor.callstack.frames().len());
    }
    assert!(deepest >= 1);
    assert!(left <= 1);
}

#[test]
fn memory_is_read_in_elements_words_and_bytes() {
    let source = "begin push.5 mem_store.8 push.6 mem_store.9 push.1.2.3.4 mem_storew_le.12 dropw end";
    let trace = run_source(source, &[]);
    assert_eq!(trace.read_memory_element(8), Some(5));
    assert_eq!(trace.read_memory_element(9), Some(6));
    assert_eq!(trace.read_memory_element(100), Some(0));
    assert_eq!(trace.read_memory_element_in_context(8, 1, 0), Some(0));
    assert_eq!(trace.read_memory_word(8), Some(vec![5, 6, 0, 0]));
    assert_eq!(trace.read_memory_word(9), Some(vec![0, 0, 0, 0]));
    let word = trace.read_memory_word_in_context(12, 0, 0).unwrap();
    let mut sorted = word.clone();
    sorted.sort();
    assert_eq!(sorted, vec![1, 2, 3, 4]);

    let at = NativePtr { addr: 8, offset: 0 };
    assert_eq!(trace.read_bytes_for_type(at, &Type::U64, 0, 0), Ok(vec![0, 0, 0, 5, 0, 0, 0, 6]));
    assert_eq!(trace.read_bytes_for_type(at, &Type::U32, 0, 0), Ok(vec![0, 0, 0, 5]));
    let unaligned = NativePtr { addr: 8, offset: 1 };
    assert_eq!(
        trace.read_bytes_for_type(unaligned, &Type::U8, 0, 0),
        Err(MemoryReadError::UnalignedRead)
    );
    let last = NativePtr { addr: u32::MAX, offset: 0 };
    assert_eq!(
        trace.read_bytes_for_type(last, &Type::U64, 0, 0),
        Err(MemoryReadError::OutOfBounds)
    );

    match trace.read_from_rust_memory(32, 1) {
        Cells::Felts(felts) => assert_eq!(felts, vec![5]),
        Cells::Words(_) => panic!("one element is no word"),
    }
    match trace.read_from_rust_memory_in_context(32, 0, 0, 4) {
        Cells::Words(words) => assert_eq!(words.len(), 1),
        Cells::Felts(_) => panic!("four elements are a word"),
    }
}

#[test]
fn an_empty_trace_holds_nothing() {
    let trace = ExecutionTrace::empty();
    assert_eq!(trace.read_memory_element(0), Some(0));
    assert_eq!(trace.outputs().elements, vec![0u64; 16]);
}

#[test]
fn recorded_events_are_played_back_in_order() {
    let source = "begin emit.event(\"test::event\") adv_push movup.15 drop emit.event(\"test::event\") adv_push movup.15 drop end";
    let program = assemble(source);
    let replay = VecDeque::from(vec![
        vec![AdviceMutation::ExtendStack { values: felts(&[11]) }],
        vec![AdviceMutation::ExtendStack { values: felts(&[22]) }],
    ]);
    let (executor, host) =
        Executor::new(Vec::new()).into_debug_with_replay(&program, Vec::new(), replay).unwrap();
    let trace = run(executor, host);
    assert_eq!(trace.outputs().elements[0], 22);
    assert_eq!(trace.outputs().elements[1], 11);
}

#[test]
fn advice_reaches_the_program() {
    let program = assemble("begin adv_push movup.15 drop end");
    let mut executor = Executor::new(Vec::new());
    executor.with_advice_inputs(
        AdviceInputs::default().with_stack([miden_core::Felt::new_unchecked(99)]),
    );
    let (executor, host) = executor.into_debug(&program).unwrap();
    assert_eq!(run(executor, host).outputs().elements[0], 99);
}

#[test]
fn code_is_found_under_the_hash_of_its_procedures() {
    let program = assemble("begin push.1 drop end");
    let mut host = DebuggerHost::new();
    let digest = word_of(&program.hash());
    assert!(host.get_mast_forest(digest).is_none());
    host.load_mast_forest(program.mast_forest().clone());
    assert!(host.get_mast_forest(digest).is_some());
    let other = Word { a: felt(1), b: felt(2), c: felt(3), d: felt(4) };
    assert!(host.get_mast_forest(other).is_none());
}

#[test]
fn limits_are_tested_when_a_program_is_set_up() {
    let options = RunOptions {
        max_cycles: 100_000,
        expected_cycles: 64,
        core_trace_fragment_size: 1024,
        enable_tracing: false,
        enable_debugging: false,
        max_adv_map_value_size: 64,
        max_adv_map_elements: 256,
        max_hash_len_bytes: 512,
        max_num_continuations: 128,
        max_stack_depth: 128,
    };
    let options = options.checked().unwrap();
    let config = ExecutionConfig {
        inputs: StackInputs::new(&felts(&[4, 3])).unwrap(),
        advice_inputs: AdviceInputs::default(),
        options,
    };
    let executor = Executor::from_config(config);
    assert!(executor.options.enable_tracing);
    assert!(executor.options.enable_debugging);
    let (executor, host) = executor.into_debug(&assemble("begin sub end")).unwrap();
    let trace = run(executor, host);
    assert_eq!(trace.outputs().elements.len(), 16);
}

#[test]
fn a_program_over_its_limits_is_refused() {
    let mut executor = Executor::new(Vec::new());
    executor.options.max_adv_map_elements = 0;
    let key = miden_core::Word::default();
    let map = [(key, vec![miden_core::Felt::new_unchecked(1); 8])];
    executor.with_advice_inputs(AdviceInputs::default().with_map(map));
    let refusal = executor.into_debug(&assemble("begin push.1 drop end"));
    assert!(refusal.is_err());
}

fn library_of(program: &Program) -> Library {
    Library { digest: word_of(&program.hash()), forest: program.mast_forest().clone() }
}

#[test]
fn dependencies_are_resolved_among_the_libraries() {
    let lib = library_of(&assemble("begin push.1 drop end"));
    let digest = lib.digest;
    let mut executor = Executor::new(Vec::new());
    executor.register_library_dependency(lib.clone());
    executor.with_library(lib);
    assert!(executor.dependency_resolver_mut().resolve(digest).is_some());
    executor.with_dependencies(&vec![Dependency { digest }]).unwrap();
    assert_eq!(executor.libraries.len(), 2);
}

#[test]
fn a_package_that_is_no_library_is_refused_as_a_dependency() {
    let digest = Word { a: felt(1), b: felt(2), c: felt(3), d: felt(4) };
    let mut executor = Executor::new(Vec::new());
    executor
        .dependency_resolver_mut()
        .add(digest, ResolvedDependency::Package { name: "app".into(), library: None });
    let error = executor.with_dependencies(&vec![Dependency { digest }]).unwrap_err();
    assert_eq!(error, "expected package app to contain library");
}

#[test]
fn snapshots_are_set_up_to_be_traced() {
    let program = assemble("begin push.3 push.4 add drop end");
    let snapshot = ReplaySnapshot {
        program: (*program).clone(),
        stack_inputs: StackInputs::new(&felts(&[42])).unwrap(),
        advice_inputs: AdviceInputs::default(),
        options: RunOptions {
            max_cycles: 100_000,
            expected_cycles: 64,
            core_trace_fragment_size: 1024,
            enable_tracing: true,
            enable_debugging: true,
            max_adv_map_value_size: 64,
            max_adv_map_elements: 256,
            max_hash_len_bytes: 512,
            max_num_continuations: 128,
            max_stack_depth: 128,
        },
        mast_forests: vec![program.mast_forest().clone()],
        event_log: Vec::new(),
    };
    let (mut executor, mut host) = miden_debug::trace::set_up(snapshot).unwrap();
    let trace = collect(&mut executor, &mut host);
    assert!(trace.error().is_none());
    assert!(trace.write_text().starts_with("Function trace: "));
    assert_eq!(executor.stack_outputs.elements[0], 42);
}

#[test]
fn arguments_are_pushed_in_their_order() {
    let mut config = DebuggerConfig::new();
    config.args = felts(&[10, 20]);
    let program = assemble("begin nop end");
    let launch = State::new(config, &Vec::new(), &Vec::new(), &program).unwrap();
    let trace = run(launch.trace_executor, launch.trace_host);
    assert_eq!(trace.outputs().elements[0], 20);
    assert_eq!(trace.outputs().elements[1], 10);
    assert_eq!(trace.outputs().elements[2], 0);
    assert_eq!(launch.state.debug_mode, DebugMode::Program);
    assert!(launch.state.stopped);
}

#[test]
fn the_inputs_are_the_stack_where_there_are_no_arguments() {
    let mut config = DebuggerConfig::new();
    config.inputs = Some(ExecutionConfig {
        inputs: StackInputs::new(&felts(&[7, 8])).unwrap(),
        advice_inputs: AdviceInputs::default().with_stack([miden_core::Felt::new_unchecked(5)]),
        options: Executor::new(Vec::new()).options,
    });
    let program = assemble("begin movup.15 movup.15 adv_push movup.15 drop end");
    let launch = State::new(config, &Vec::new(), &Vec::new(), &program).unwrap();
    let trace = run(launch.trace_executor, launch.trace_host);
    assert_eq!(trace.outputs().elements[..3], [5, 8, 7]);
}

#[test]
fn too_many_arguments_are_refused() {
    let mut config = DebuggerConfig::new();
    config.args = felts(&[1; 17]);
    let error = State::new(config, &Vec::new(), &Vec::new(), &assemble("begin nop end")).err();
    assert_eq!(
        error.unwrap(),
        "number of input values on the stack cannot exceed 16, but was 17"
    );
}

#[test]
fn libraries_are_linked_once_more_as_dependencies() {
    let lib = library_of(&assemble("begin push.1 drop end"));
    let known = vec![Dependency { digest: lib.digest }];
    let unknown = vec![Dependency { digest: Word { a: felt(1), b: felt(1), c: felt(1), d: felt(1) } }];
    let libs = vec![lib];
    assert!(is_linked(&libs, &known));
    assert!(!is_linked(&libs, &unknown));
    let executor =
        miden_debug::ui::state::prepare_executor(&DebuggerConfig::new(), &libs, &known).unwrap();
    assert_eq!(executor.libraries.len(), 2);
}

#[test]
fn reloading_makes_the_breakpoints_anew() {
    let program = assemble("begin push.1 drop end");
    let launch = State::new(DebuggerConfig::new(), &Vec::new(), &Vec::new(), &program).unwrap();
    let mut state = launch.state;
    let mut host = launch.host;
    step(&mut state.executor, &mut host).unwrap();
    state.next_breakpoint_id = 7;
    state.create_breakpoint(BreakpointType::Other("main.masm:3".into()));
    state.create_breakpoint(BreakpointType::Finish);
    assert_eq!(state.breakpoints[0].id, 7);
    assert_eq!(state.breakpoints[0].creation_cycle, 1);
    state.execution_failed = Some(StepError { message: "failed".into() });

    let relaunch = state.reload(&Vec::new(), &Vec::new(), &program).unwrap();
    assert_eq!(state.breakpoints.len(), 2);
    assert_eq!(state.breakpoints[0].id, 0);
    assert_eq!(state.breakpoints[1].id, 1);
    assert_eq!(state.breakpoints[0].creation_cycle, 0);
    assert!(matches!(&state.breakpoints[0].ty, BreakpointType::Other(t) if t == "main.masm:3"));
    assert!(matches!(&state.breakpoints[1].ty, BreakpointType::Finish));
    assert_eq!(state.next_breakpoint_id, 2);
    assert!(state.execution_failed.is_none());
    assert_eq!(state.executor.cycle, 0);
    let trace = run(relaunch.trace_executor, relaunch.trace_host);
    state.set_trace(trace);
    assert_eq!(state.execution_trace.outputs().elements[0], 0);
}

#[test]
fn transactions_cannot_be_reloaded() {
    let program = assemble("begin emit.event(\"test::event\") adv_push movup.15 drop end");
    let log = || vec![vec![AdviceMutation::ExtendStack { values: felts(&[3]) }]];
    let launch = State::new_for_transaction(
        &program,
        felts(&[1, 2]),
        AdviceInputs::default(),
        &vec![program.mast_forest().clone()],
        log(),
        log(),
    )
    .unwrap();
    let trace = run(launch.trace_executor, launch.trace_host);
    assert_eq!(trace.outputs().elements[..3], [3, 1, 2]);
    let mut state = launch.state;
    assert_eq!(state.debug_mode, DebugMode::Transaction);
    let error = state.reload(&Vec::new(), &Vec::new(), &program).err().unwrap();
    assert_eq!(error, "reload is not supported in transaction debug mode");
}

#[test]
fn memory_is_shown_in_the_format_asked_for() {
    let source = "begin push.255 mem_store.8 push.1 mem_store.9 push.4294967295 mem_store.16 end";
    let program = assemble(source);
    let launch = State::new(DebuggerConfig::new(), &Vec::new(), &Vec::new(), &program).unwrap();
    let mut state = launch.state;
    state.set_trace(run(launch.trace_executor, launch.trace_host));
    let read = |addr: u32, ty: Type, count: usize, format: FormatType| {
        state.read_memory(&ReadMemoryExpr {
            addr: NativePtr { addr, offset: 0 },
            ty,
            count,
            format,
        })
    };
    assert_eq!(read(8, Type::Felt, 1, FormatType::Decimal).unwrap(), "255");
    assert_eq!(read(8, Type::Felt, 1, FormatType::Hex).unwrap(), "ff");
    assert_eq!(read(8, Type::Word, 1, FormatType::Decimal).unwrap(), "[255, 1, 0, 0]");
    assert_eq!(read(8, Type::Word, 1, FormatType::Binary).unwrap(), "[11111111, 1, 0, 0]");
    assert_eq!(read(8, Type::U32, 1, FormatType::Decimal).unwrap(), "255");
    assert_eq!(read(16, Type::I32, 1, FormatType::Decimal).unwrap(), "-1");
    assert_eq!(read(16, Type::I32, 1, FormatType::Hex).unwrap(), "ffffffff");
    assert_eq!(read(8, Type::U64, 1, FormatType::Decimal).unwrap(), "1095216660481");
    assert_eq!(
        read(9, Type::Word, 1, FormatType::Decimal).unwrap_err(),
        "read failed: type 'word' must be aligned to a word boundary"
    );
    assert_eq!(
        read(8, Type::Felt, 2, FormatType::Decimal).unwrap_err(),
        "-count with value > 1 is not yet implemented"
    );
    assert_eq!(
        read(u32::MAX, Type::U64, 1, FormatType::Decimal).unwrap_err(),
        "invalid read: attempted to read beyond end of linear memory"
    );
    assert_eq!(
        read(8, Type::Other { name: "u128".into(), size: 16 }, 1, FormatType::Decimal).unwrap_err(),
        "support for reads of type 'u128' are not implemented yet"
    );
    let unaligned = ReadMemoryExpr {
        addr: NativePtr { addr: 8, offset: 2 },
        ty: Type::Felt,
        count: 1,
        format: FormatType::Decimal,
    };
    assert_eq!(
        state.read_memory(&unaligned).unwrap_err(),
        "read failed: type 'felt' must be aligned to an element boundary"
    );
    let unaligned = ReadMemoryExpr { ty: Type::U8, ..unaligned };
    assert_eq!(
        state.read_memory(&unaligned).unwrap_err(),
        "invalid read: unaligned reads are not supported yet"
    );
}

/// Runs a program as a debug client says.
struct Served {
    processor: miden_processor::FastProcessor,
    host: DebuggerHost,
    session: DapSession,
}

fn serve(source: &str) -> Served {
    let program = assemble(source);
    let executor = DapExecutorFactory::create_executor(
        StackInputs::new(&felts(&[9])).unwrap(),
        AdviceInputs::default(),
        Executor::new(Vec::new()).options,
        &None,
    );
    assert_eq!(executor.config.listen_addr, "127.0.0.1:4711");
    let (processor, ctx) = executor.start(&program).unwrap();
    let asmop = look_ahead(&ctx).unwrap().asmop;
    Served { processor, host: DebuggerHost::new(), session: DapSession::new(ctx, asmop) }
}

impl Served {
    fn run(&mut self, mode: StepMode) -> StepResult {
        let run = self.session.begin_run(mode);
        loop {
            let ctx = match self.session.take_step() {
                Ok(ctx) => ctx,
                Err(result) => return result,
            };
            let mut host = TestHost { host: &mut self.host, calls: Vec::new() };
            let seen = match self.processor.step_sync(&mut host, ctx) {
                Ok(Some(ctx)) => {
                    let asmop = look_ahead(&ctx).unwrap().asmop;
                    let at = asmop.as_ref().map(|op| Place {
                        path: "src/main.masm".into(),
                        line: op.op.len() as i64,
                    });
                    StepSeen::Running { resume_ctx: ctx, asmop, at }
                }
                Ok(None) => StepSeen::Completed,
                Err(e) => StepSeen::Failed(StepError { message: e.to_string() }),
            };
            if let Some(result) = self.session.finish_step(&run, seen) {
                return result;
            }
        }
    }

    fn ask(&mut self, command: DapCommand) -> DapReply {
        let machine = MachineState::read(&self.processor, None);
        self.session.handle(&command, &machine).reply
    }
}

#[test]
fn a_client_steps_one_cycle_at_a_time() {
    let mut served = serve("begin push.1 push.2 add drop end");
    assert!(matches!(served.run(StepMode::One), StepResult::Stepped));
    assert_eq!(served.session.cycle, 1);
    assert!(matches!(served.run(StepMode::One), StepResult::Stepped));
    assert_eq!(served.session.cycle, 2);
}

#[test]
fn a_client_steps_over_instructions() {
    let mut served = serve("begin push.1 push.2 add drop end");
    while served.session.current_asmop.is_none() {
        served.run(StepMode::One);
    }
    let before = served.session.current_asmop.as_ref().unwrap().op.clone();
    assert!(matches!(served.run(StepMode::Over), StepResult::Stepped));
    let now = served.session.current_asmop.as_ref().map(|op| op.op.clone());
    assert!(now.is_none() || now != Some(before.clone()) || served.session.cycle > 1);
}

#[test]
fn a_client_runs_to_a_breakpoint_or_to_the_end() {
    let mut served = serve("begin push.1 push.2 add drop end");
    let lines = vec!["add".len() as i64];
    let reply = served.ask(DapCommand::SetBreakpoints {
        path: Some("main.masm".into()),
        lines: Some(lines),
    });
    match reply {
        DapReply::Success(DapBody::SetBreakpoints(set)) => {
            assert_eq!(set.len(), 1);
            assert_eq!(set[0].path, "main.masm");
            assert_eq!(set[0].line, 3);
        }
        other => panic!("unexpected reply: {other:?}"),
    }
    assert!(matches!(served.run(StepMode::UntilBreakpoint), StepResult::Breakpoint(3)));
    assert_eq!(served.session.current_asmop.as_ref().unwrap().op, "add");
    served.ask(DapCommand::SetBreakpoints { path: Some("main.masm".into()), lines: None });
    assert!(served.session.breakpoints.is_empty());
    assert!(matches!(served.run(StepMode::UntilBreakpoint), StepResult::Terminated));
    assert!(served.session.resume_ctx.is_none());
    assert!(matches!(served.run(StepMode::One), StepResult::Terminated));
    assert_eq!(DapSession::outputs(&served.processor).elements[0], 9);
}

#[test]
fn a_client_sees_the_stack_and_the_memory() {
    let mut served = serve("begin push.5 mem_store.8 end");
    while !matches!(served.run(StepMode::One), StepResult::Terminated) {}
    match served.ask(DapCommand::Variables(SCOPE_STACK)) {
        DapReply::Success(DapBody::Variables(variables)) => {
            assert_eq!(variables[0].name, "[0]");
            assert_eq!(variables[0].value, "9");
            assert_eq!(variables[0].kind, "Felt");
            assert!(variables.len() >= 16);
        }
        other => panic!("unexpected reply: {other:?}"),
    }
    match served.ask(DapCommand::Variables(SCOPE_MEMORY)) {
        DapReply::Success(DapBody::Variables(variables)) => {
            // The word that was stored to, and the one in which the program keeps its frame pointer.
            assert_eq!(variables.len(), 8);
            assert_eq!(variables[0].name, "0x00000008");
            assert_eq!(variables[0].value, "5");
            assert_eq!(variables[3].name, "0x0000000b");
        }
        other => panic!("unexpected reply: {other:?}"),
    }
    match served.ask(DapCommand::Variables(77)) {
        DapReply::Success(DapBody::Variables(variables)) => assert!(variables.is_empty()),
        other => panic!("unexpected reply: {other:?}"),
    }
}

#[test]
fn a_failure_ends_the_session() {
    let mut served = serve("begin assert end");
    let result = served.run(StepMode::UntilBreakpoint);
    match result {
        StepResult::Error(e) => assert!(!e.message.is_empty()),
        other => panic!("unexpected result: {other:?}"),
    }
    assert!(served.session.resume_ctx.is_none());
}

#[test]
fn an_abandoned_program_is_run_to_its_end() {
    let mut served = serve("begin push.1 push.2 add drop end");
    served.run(StepMode::One);
    let ended = loop {
        let ctx = served.session.take_step().unwrap();
        let mut host = TestHost { host: &mut served.host, calls: Vec::new() };
        let seen = match served.processor.step_sync(&mut host, ctx) {
            Ok(Some(ctx)) => StepSeen::Running { resume_ctx: ctx, asmop: None, at: None },
            Ok(None) => StepSeen::Completed,
            Err(e) => StepSeen::Failed(StepError { message: e.to_string() }),
        };
        if let Some(ended) = served.session.drain(seen) {
            break ended;
        }
    };
    assert!(ended.is_ok());
    assert_eq!(served.session.cycle, 1);
    assert_eq!(DapSession::outputs(&served.processor).elements[0], 9);
}

#[test]
fn only_the_first_configuration_counts() {
    let mut global = None;
    DapConfig::set_global(&mut global, DapConfig { listen_addr: "a:1".into() });
    DapConfig::set_global(&mut global, DapConfig { listen_addr: "b:2".into() });
    assert_eq!(global.as_ref().unwrap().listen_addr, "a:1");
    let executor = DapExecutorFactory::create_executor(
        StackInputs::new(&Vec::new()).unwrap(),
        AdviceInputs::default(),
        Executor::new(Vec::new()).options,
        &global,
    );
    assert_eq!(executor.config.listen_addr, "a:1");
}

#[test]
fn places_are_found_by_what_the_host_knows() {
    let (mut executor, mut host) =
        Executor::new(Vec::new()).into_debug(&assemble("begin push.1 drop end")).unwrap();
    while executor.current_asmop.as_ref().map_or(true, |op| op.location.is_none())
        && !executor.stopped
    {
        step(&mut executor, &mut host).unwrap();
    }
    let asmop = executor.current_asmop.as_ref().expect("an instruction with a location");
    let source =
        FoundSource { uri: "main.masm".into(), content: "one\ntwo\nthree".into(), start: 5 };
    assert!(source.is_sound());
    let place = miden_debug::exec::dap::resolve_asmop_location(asmop, Some(source)).unwrap();
    assert_eq!(place.path, "main.masm");
    assert_eq!(place.line, 2);
    assert!(miden_debug::exec::dap::resolve_asmop_location(asmop, None).is_none());
    let beyond = FoundSource { uri: "main.masm".into(), content: "one".into(), start: 50 };
    assert!(!beyond.is_sound());
}

#[test]
fn handlers_are_called_for_what_programs_report() {
    let (_, host) = Executor::new(Vec::new()).into_debug(&assemble("begin nop end")).unwrap();
    let calls = host.on_trace(5, 240);
    assert_eq!(calls, vec![HandlerCall { handler: 0, clk: 5, event: TraceEvent::FrameStart }]);
    let calls = host.on_trace(6, 252);
    assert_eq!(calls[0].event, TraceEvent::FrameEnd);
    assert!(host.on_trace(7, 1).is_empty());
    let call = host.handle_assert_failed(8, Some(3)).unwrap();
    assert_eq!(call.event, TraceEvent::AssertionFailed(Some(3)));
}

#[test]
fn the_last_five_operations_are_kept_in_order() {
    let program = assemble("begin push.1 push.2 add push.3 mul drop end");
    let (mut executor, mut host) = Executor::new(Vec::new()).into_debug(&program).unwrap();
    let mut all = Vec::new();
    while !executor.stopped {
        let cycle = executor.cycle;
        step(&mut executor, &mut host).unwrap();
        if executor.cycle > cycle {
            all.extend(executor.current_op);
        }
    }
    assert!(all.len() > 5);
    let kept: Vec<_> = executor.recent.iter().copied().collect();
    assert_eq!(kept, all[all.len() - 5..]);
}

#[test]
fn a_program_can_be_set_up_as_often_as_one_likes() {
    let program = assemble("begin push.1 add end");
    for _ in 0..2 {
        let (executor, host) = Executor::new(felts(&[41])).into_debug(&program).unwrap();
        assert_eq!(executor.cycle, 0);
        assert_eq!(run(executor, host).outputs().elements[0], 42);
    }
}

#[test]
fn transitions_come_in_the_order_of_their_cycles() {
    let program = assemble(
        "proc foo push.1 drop end proc bar push.2 drop end begin exec.foo exec.bar exec.foo end",
    );
    let (mut executor, mut host) = Executor::new(Vec::new()).into_debug(&program).unwrap();
    let trace = collect(&mut executor, &mut host);
    let entries = trace.entries();
    assert!(entries.len() >= 3);
    for pair in 1..entries.len() {
        assert!(entries[pair - 1].cycle < entries[pair].cycle);
        assert_ne!(entries[pair - 1].procedure, entries[pair].procedure);
    }
}

#[test]
fn larger_values_are_read_word_by_word() {
    let trace = run_source(
        "begin push.1.8 mem_store push.2.9 mem_store push.3.12 mem_store push.4.19 mem_store end",
        &[],
    );
    match trace.read_from_rust_memory(32, 10) {
        Cells::Words(words) => {
            assert_eq!(words, vec![vec![0, 0, 2, 1], vec![0, 0, 0, 3], vec![4, 0, 0, 0]]);
        }
        Cells::Felts(_) => panic!("ten elements are three words"),
    }
}
