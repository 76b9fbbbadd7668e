//! The state behind the user interface, packages, reports and the text of traces.
use std::sync::Arc;

use miden_assembly::{Assembler, DefaultSourceManager};
use miden_core::advice::AdviceInputs;
use miden_core::serde::Serializable;
use miden_debug::config::InputFile;
use miden_debug::debug::memory::{FormatType, NativePtr, ReadMemoryExpr, Type};
use miden_debug::debug::op::TraceEvent;
use miden_debug::exec::advice::Felt;
use miden_debug::exec::dap_client::{RemoteFrame, RemoteVariable};
use miden_debug::exec::diagnostic::{track_depth, DiagnosticExecutorFactory, DiagnosticTracker};
use miden_debug::exec::executor::Executor;
use miden_debug::exec::options::StackInputs;
use miden_debug::package::{
    load_library, load_package, load_sysroot_libs, sysroot_sort, take_apart, SysrootFile,
    SysrootSort,
};
use miden_debug::trace::{banner, failure, FunctionTrace, TraceStep};
use miden_debug::ui::breakpoint::{is_used, Breakpoint, BreakpointType};
use miden_debug::ui::stack::{OperandStackPane, PaneAction, PaneBorder};
use miden_debug::ui::state::{resolve_dap_frame, DebugMode, InputMode, State};
use miden_mast_package::{Package, TargetType};

fn remote(name: &str, path: Option<&str>, line: i64) -> RemoteFrame {
    RemoteFrame::new(name.into(), path.map(String::from), line, 0)
}

fn variable(value: &str) -> RemoteVariable {
    RemoteVariable::new("[0]".into(), value.into())
}

fn dap_state() -> State {
    State::new_for_dap(
        &vec![remote("main", Some("a.masm"), 2)],
        &vec![Some("begin\n  nop\nend\n".into())],
        &vec![variable("5"), variable("x"), variable("18446744069414584322")],
        &Some("{\"cycle\":8,\"stopped\":false}".into()),
    )
}

#[test]
fn remote_programs_are_shown() {
    let mut state = dap_state();
    assert_eq!(state.debug_mode, DebugMode::RemoteDap);
    assert_eq!(state.executor.current_stack, vec![5, 0, 1]);
    assert_eq!(state.executor.cycle, 8);
    assert_eq!(state.input_mode, InputMode::Normal);
    let frame = state.executor.callstack.current_frame_mut().unwrap();
    let at = frame.last_resolved(&miden_debug::debug::source::SourceManager::new()).unwrap();
    assert_eq!(at.text(), "a.masm:2:1");
    assert_eq!((at.start, at.end), (6, 12));

    state.refresh_from_dap(&Vec::new(), &Vec::new(), &vec![variable("9")], &None);
    assert_eq!(state.executor.current_stack, vec![9]);
    assert_eq!(state.executor.cycle, 8);
    assert!(state.executor.callstack.frames().is_empty());
    state.refresh_from_dap(&Vec::new(), &Vec::new(), &Vec::new(), &Some("{\"cycle\":9}".into()));
    assert_eq!(state.executor.cycle, 9);
}

#[test]
fn remote_programs_cannot_be_read_or_reloaded() {
    let state = dap_state();
    let expr = ReadMemoryExpr {
        addr: NativePtr { addr: 0, offset: 0 },
        ty: Type::Felt,
        count: 1,
        format: FormatType::Decimal,
    };
    assert_eq!(
        state.read_memory(&expr).unwrap_err(),
        "memory reads are not supported in DAP remote debug mode"
    );
    assert_eq!(
        state.check_reload().unwrap_err(),
        "reload is not supported in DAP remote debug mode"
    );
}

#[test]
fn remote_frames_reach_over_their_line() {
    let text = String::from("one\ntwo\nthree");
    let at = resolve_dap_frame(&remote("f", Some("a"), 2), Some(&text)).unwrap();
    assert_eq!((at.line, at.col, at.start, at.end), (2, 1, 4, 8));
    let last = resolve_dap_frame(&remote("f", Some("a"), 3), Some(&text)).unwrap();
    assert_eq!((last.start, last.end), (8, 13));
    let first = resolve_dap_frame(&remote("f", Some("a"), -7), Some(&text)).unwrap();
    assert_eq!((first.line, first.start), (1, 0));
    assert!(resolve_dap_frame(&remote("f", Some("a"), 9), Some(&text)).is_none());
    assert!(resolve_dap_frame(&remote("f", None, 1), Some(&text)).is_none());
    assert!(resolve_dap_frame(&remote("f", Some("a"), 1), None).is_none());
}

#[test]
fn breakpoints_get_numbers_of_their_own() {
    let mut state = dap_state();
    for _ in 0..3 {
        state.create_breakpoint(BreakpointType::Other("x".into()));
    }
    let ids: Vec<u8> = state.breakpoints.iter().map(|b| b.id).collect();
    assert_eq!(ids, vec![0, 1, 2]);
    state.next_breakpoint_id = 1;
    state.create_breakpoint(BreakpointType::Finish);
    assert_eq!(state.breakpoints[3].id, 3);
    assert_eq!(state.next_breakpoint_id, 4);
    assert!(state.executor.callstack.current_frame().unwrap().should_break_on_exit());
    state.next_breakpoint_id = 255;
    state.create_breakpoint(BreakpointType::Other("y".into()));
    assert_eq!(state.breakpoints[4].id, 255);
    assert_eq!(state.next_breakpoint_id, 0);
    assert_eq!(state.available_id(), Some(4));
    let hit = Breakpoint { id: 4, creation_cycle: 0, ty: BreakpointType::Finish };
    state.breakpoints_hit.push(hit);
    assert_eq!(state.available_id(), Some(5));
    assert!(is_used(&state.breakpoints, 255));
    assert!(!is_used(&state.breakpoints, 4));
}

#[test]
fn numbers_run_out() {
    let mut state = dap_state();
    for id in 0..=254u8 {
        state.breakpoints.push(Breakpoint {
            id,
            creation_cycle: 0,
            ty: BreakpointType::Other("x".into()),
        });
    }
    assert_eq!(state.available_id(), None);
    state.next_breakpoint_id = 255;
    assert_eq!(state.available_id(), Some(255));
}

#[test]
fn the_stack_pane_shows_the_top_last() {
    let lines = OperandStackPane::lines(&vec![7, 8, 9]);
    assert_eq!(lines, vec![" 9", " 8", " 7"]);
    assert_eq!(OperandStackPane::selected_line(3), 2);
    assert_eq!(OperandStackPane::selected_line(0), 0);
    assert_eq!(OperandStackPane::bottom_title(3), "depth is 3");
    let mut pane = OperandStackPane::new(false);
    assert_eq!(pane.border_type(), PaneBorder::Plain);
    pane.update(PaneAction::Focus);
    assert!(pane.highlighted());
    assert_eq!(pane.border_type(), PaneBorder::Thick);
    pane.update(PaneAction::Other);
    assert!(pane.highlighted());
    pane.update(PaneAction::UnFocus);
    assert!(!pane.highlighted());
    assert_eq!(pane.height_constraint(), 30);
}

fn assembler() -> Assembler {
    Assembler::new(Arc::new(DefaultSourceManager::default()))
}

fn program_package() -> Box<Package> {
    let library = library_module();
    let entry = "lib::math::one".parse().unwrap();
    Box::new(library.make_executable(&entry).unwrap())
}

fn library_module() -> Box<Package> {
    let module = miden_assembly::ast::Module::parser(miden_assembly::ast::ModuleKind::Library)
        .parse_str(
            miden_assembly::PathBuf::new("lib::math").unwrap(),
            "pub proc one push.1 drop end",
            Arc::new(DefaultSourceManager::default()),
        )
        .unwrap();
    let library = assembler().assemble_library([module]).unwrap();
    Package::from_library(
        "math".into(),
        "0.1.0".parse().unwrap(),
        TargetType::Library,
        library,
        [],
    )
}

#[test]
fn packages_are_loaded() {
    let bytes = program_package().to_bytes();
    let file = InputFile::Real("p.masp".into());
    let package = load_package(&file, &bytes, &None).unwrap();
    let (program, dependencies) = take_apart(&package).unwrap();
    assert!(dependencies.is_empty());
    assert!(Executor::for_lone_package(&package, vec![Felt { value: 3 }]).is_some());
    assert!(Executor::new(Vec::new()).into_debug(&program).is_ok());
    let stdin = InputFile::Stdin(bytes.clone());
    assert!(load_package(&stdin, &Vec::new(), &None).is_ok());

    let error = load_package(&file, &b"junk".to_vec(), &None).unwrap_err();
    assert!(error.starts_with("failed to load Miden package from p.masp: "), "got {error}");
    let error = load_package(&InputFile::Stdin(Vec::new()), &bytes, &None).unwrap_err();
    assert!(error.starts_with("failed to load Miden package from stdin: "), "got {error}");
    let error = load_package(&file, &bytes, &Some("no name".into())).unwrap_err();
    assert_eq!(error, "invalid function identifier: 'no name'");
    let error = load_package(&file, &bytes, &Some("lib::math::one".into())).unwrap_err();
    assert_eq!(error, "cannot use --entrypoint with executable packages");
}

#[test]
fn libraries_become_programs_by_an_entrypoint() {
    let bytes = library_module().to_bytes();
    let file = InputFile::Real("math.masp".into());
    let package = load_package(&file, &bytes, &Some("lib::math::one".into())).unwrap();
    assert!(take_apart(&package).is_ok());
    assert!(load_package(&file, &bytes, &Some("lib::math::two".into())).is_err());
    let library = load_package(&file, &bytes, &None).unwrap();
    assert!(take_apart(&library).is_err());
}

#[test]
fn libraries_are_loaded_from_packages() {
    let library = load_library("math.masp", &library_module().to_bytes()).unwrap();
    assert!(library.forest.num_procedures() > 0);
    let error = load_library("p.masp", &program_package().to_bytes()).err().unwrap();
    assert_eq!(error, "Expected Miden package to contain a Library, got Program: 'p.masp'");
    let error = load_library("x.masp", &b"junk".to_vec()).err().unwrap();
    assert!(error.starts_with("failed to load Miden package from x.masp: "));
}

fn sysroot_file(name: &str, content: Result<Vec<u8>, String>) -> SysrootFile {
    SysrootFile { path: format!("root/{name}"), name: name.into(), content }
}

#[test]
fn the_toolchain_brings_its_libraries() {
    assert_eq!(sysroot_sort("std.masp"), Some(SysrootSort::Masp));
    assert_eq!(sysroot_sort("std.masl"), Some(SysrootSort::Masl));
    assert_eq!(sysroot_sort("notes.txt"), None);
    assert_eq!(sysroot_sort("masp"), None);
    let library = library_module();
    let files = vec![
        sysroot_file("notes.txt", Err("never read".into())),
        sysroot_file("math.masp", Ok(library.to_bytes())),
        sysroot_file("prog.masp", Ok(program_package().to_bytes())),
        sysroot_file("math.masl", Ok(library.mast.to_bytes())),
    ];
    let libraries = load_sysroot_libs(&files).unwrap();
    assert_eq!(libraries.len(), 2);
    assert_eq!(libraries[0].digest, libraries[1].digest);
    let error = load_sysroot_libs(&vec![sysroot_file("a.masp", Ok(vec![1]))]).err().unwrap();
    assert!(error.starts_with("failed to load package 'root/a.masp': "), "got {error}");
    let error = load_sysroot_libs(&vec![sysroot_file("a.masl", Ok(vec![1]))]).err().unwrap();
    assert!(error.starts_with("failed to load library 'root/a.masl': "), "got {error}");
    let error = load_sysroot_libs(&vec![sysroot_file("a.masl", Err("denied".into()))]).err();
    assert_eq!(error.unwrap(), "denied");
}

#[test]
fn failures_of_transactions_are_reported() {
    let mut tracker = DiagnosticTracker::new();
    assert_eq!(
        tracker.report_diagnostics("boom"),
        "\n=== Transaction Execution Failed ===\nError: boom\nLast known cycle: 0\n\
         Call depth at failure: 0\n====================================\n\n"
    );
    tracker.on_trace(vec![1, 2], 7, 240);
    tracker.capture_state((0..20).collect(), 9);
    let report = tracker.report_diagnostics("boom");
    assert!(report.contains("Last known cycle: 9\nCall depth at failure: 1\n"));
    assert!(report.contains(
        "Last known stack state (top 16): [0, 1, 2, 3, 4, 5, 6, 7, 8, 9, 10, 11, 12, 13, 14, 15]\n"
    ));
    assert_eq!(track_depth(0, TraceEvent::FrameEnd), 0);
    assert_eq!(track_depth(1, TraceEvent::Unknown(3)), 1);
}

#[test]
fn diagnostics_are_switched_on() {
    let options = miden_debug::exec::options::RunOptions {
        enable_tracing: false,
        enable_debugging: false,
        ..Executor::new(Vec::new()).options
    };
    let executor = DiagnosticExecutorFactory::create_executor(
        StackInputs::new(&Vec::new()).unwrap(),
        AdviceInputs::default(),
        options,
    );
    assert!(executor.run_options().enable_tracing);
    assert!(executor.run_options().enable_debugging);
    assert_eq!(executor.run_options().max_cycles, options.max_cycles);
}

fn traced(previous: usize, cycle: usize, depth: usize, name: Option<&str>) -> TraceStep {
    TraceStep { previous_cycle: previous, cycle, depth, procedure: name.map(String::from) }
}

#[test]
fn every_function_is_counted() {
    let steps = vec![
        traced(3, 5, 0, Some("main")),
        traced(5, 9, 1, Some("foo")),
        traced(9, 10, 0, Some("main")),
        traced(10, 10, 0, Some("never")),
        traced(10, 12, 0, None),
        traced(12, 13, 0, Some("<unknown>")),
        traced(13, 20, 1, Some("foo")),
        traced(20, 21, 0, None),
    ];
    let trace = FunctionTrace::collect(&steps, None);
    let totals: Vec<(&str, usize, usize)> = trace
        .totals()
        .iter()
        .map(|t| (t.procedure.as_str(), t.totals.cycles, t.totals.entries))
        .collect();
    assert_eq!(totals, vec![("<unknown>", 4, 2), ("foo", 11, 2), ("main", 3, 2)]);
    for (procedure, _, entries) in &totals {
        let named = trace.entries().iter().filter(|e| e.procedure == *procedure).count();
        assert_eq!(named, *entries);
    }
    assert_eq!(trace.entries().len(), 6);
    assert_eq!(trace.total_cycles(), 21 - 3);
    assert_eq!(totals.iter().map(|t| t.1).sum::<usize>(), trace.total_cycles());
}

#[test]
fn traces_are_written_as_text() {
    let steps = vec![
        traced(0, 1, 0, Some("main")),
        traced(1, 2, 0, Some("main")),
        traced(2, 2, 5, Some("ghost")),
        traced(2, 5, 1, Some("foo")),
        traced(5, 6, 0, None),
    ];
    let trace = FunctionTrace::collect(&steps, Some("boom".into()));
    assert_eq!(trace.total_cycles(), 6);
    assert_eq!(trace.entries().len(), 3);
    assert_eq!(trace.error().as_deref(), Some("boom"));
    assert_eq!(
        trace.write_text(),
        "Function trace: 3 transition(s), 3 unique function(s), 6 cycle(s)\n\
         \n     cycle  function\n         0  main\n         2    foo\n         5  <unknown>\n\
         \nFunctions by self-cycles:\n    cycles  entries  function\n         3        1  foo\n\
         \x20        2        1  main\n         1        1  <unknown>\n"
    );
    assert_eq!(
        banner("a.mdsnap", 2, 1),
        "Tracing replay snapshot a.mdsnap (2 event(s), 1 forest(s))"
    );
    assert_eq!(failure(7, "boom"), "execution failed at cycle 7: boom");
}
