//! Call stacks, source positions, operations and values in memory.
use std::collections::{BTreeMap, VecDeque};

use miden_debug::debug::memory::{
    bytes_of_elements, show_bool, show_scalar, show_unsigned, FormatType, MemoryReadError,
    NativePtr, Type,
};
use miden_debug::debug::op::{
    control_text, same_asmop, AssemblyOp, Location, Operation, TraceEvent, OP_CALL, OP_END,
    OP_JOIN, OP_NOOP,
};
use miden_debug::debug::source::{fits, resolve_location, ResolvedLocation, SourceManager};
use miden_debug::debug::stacktrace::{strip_module, CallFrame, CallStack, OpDetail, StepInfo};
use miden_debug::exec::executor::{render_execution_error, DisplayValues, Executor};

const ADD: Operation = Operation { code: 0x22, imm: 0 };

fn asmop(name: &str, op: &str, cycles: u8, start: u32) -> AssemblyOp {
    AssemblyOp::new(
        Some(Location { uri: "main.masm".into(), start, end: start + 1 }),
        name.into(),
        cycles,
        op.into(),
    )
}

fn sources() -> SourceManager {
    let mut sources = SourceManager::new();
    sources.register("main.masm".into(), "begin\n  push.1\n  drop\nend\n".into());
    sources
}

#[test]
fn operations_are_printed() {
    assert_eq!(Operation { code: OP_NOOP, imm: 0 }.text(), "noop");
    assert_eq!(Operation { code: OP_END, imm: 0 }.text(), "end");
    assert_eq!(Operation { code: OP_CALL, imm: 0 }.text(), "call");
    assert_eq!(Operation { code: 0xff, imm: 0 }.text(), "<invalid>");
    assert_eq!(control_text(OP_JOIN), Some("join"));
    assert_eq!(control_text(OP_NOOP), None);
    assert!(Operation { code: OP_JOIN, imm: 0 }.structural());
    assert!(!Operation { code: OP_CALL, imm: 0 }.structural());
}

#[test]
fn instructions_are_compared_by_what_they_say() {
    let a = Some(asmop("m::f", "add", 1, 0));
    assert!(same_asmop(&a, &Some(asmop("m::f", "add", 1, 0))));
    assert!(!same_asmop(&a, &Some(asmop("m::f", "add", 1, 5))));
    assert!(!same_asmop(&a, &Some(asmop("m::g", "add", 1, 0))));
    assert!(!same_asmop(&a, &None));
    assert!(same_asmop(&None, &None));
}

#[test]
fn positions_are_counted_from_one() {
    let sources = sources();
    let at = Location { uri: "main.masm".into(), start: 8, end: 14 };
    assert!(fits(&at, &sources));
    let resolved = resolve_location(&at, &sources).unwrap();
    assert_eq!((resolved.line, resolved.col), (2, 3));
    assert_eq!(resolved.text(), "main.masm:2:3");
    let first = Location { uri: "main.masm".into(), start: 0, end: 5 };
    assert_eq!(resolve_location(&first, &sources).unwrap().text(), "main.masm:1:1");
    let beyond = Location { uri: "main.masm".into(), start: 500, end: 501 };
    assert!(!fits(&beyond, &sources));
    let unknown = Location { uri: "other.masm".into(), start: 500, end: 501 };
    assert!(fits(&unknown, &sources));
    assert!(resolve_location(&unknown, &sources).is_none());
}

#[test]
fn columns_count_characters_and_not_bytes() {
    let mut sources = SourceManager::new();
    sources.register("u".into(), "äö x".into());
    let at = Location { uri: "u".into(), start: 5, end: 6 };
    assert_eq!(resolve_location(&at, &sources).unwrap().col, 4);
    let inside = Location { uri: "u".into(), start: 1, end: 2 };
    assert!(!fits(&inside, &sources));
}

#[test]
fn files_on_disk_come_first() {
    let mut sources = sources();
    sources.found_on_disk("main.masm".into(), Some("one line".into()));
    assert_eq!(sources.source("main.masm").unwrap(), "one line");
    sources.found_on_disk("gone.masm".into(), None);
    assert!(sources.source("gone.masm").is_none());
}

#[test]
fn names_lose_the_module_they_stand_in() {
    assert_eq!(strip_module("main::foo", "main"), "foo");
    assert_eq!(strip_module("main::foo", "other"), "main::foo");
    assert_eq!(strip_module("foo", "foo"), "foo");
    assert_eq!(strip_module("a::b::c", "a"), "b::c");
}

#[test]
fn mangled_names_are_written_out() {
    let mut frame = CallFrame::new(Some("_ZN4core3fmt5Write9write_str17h0123456789abcdefE".into()));
    assert_eq!(frame.procedure("").unwrap(), "core::fmt::Write::write_str");
    let mut plain = CallFrame::new(Some("main::foo".into()));
    assert_eq!(plain.procedure("main").unwrap(), "foo");
    assert_eq!(plain.procedure("").unwrap(), "foo", "the name is settled once");
    let detail = OpDetail::Exec { callee: Some("m::f".into()) };
    assert_eq!(detail.callee("m").unwrap(), "f");
    assert_eq!(detail.display(), "exec.m::f");
}

#[test]
fn frames_remember_their_last_operations() {
    let mut frame = CallFrame::new(None);
    assert!(frame.last_location().is_none());
    assert_eq!(frame.recent().len(), 0);
    for i in 0..8u32 {
        let op = asmop("f", "add", 1, i);
        let code = Operation { code: 0x20 + i as u8, imm: 0 };
        frame.push(code, 1, Some(&op));
    }
    assert_eq!(frame.recent().len(), 5);
    assert_eq!(frame.last_location().unwrap().start, 7);
    frame.push_exec(Some("g".into()));
    assert_eq!(frame.recent().len(), 5);
    assert!(frame.procedure("").is_none());
    assert!(!frame.should_break_on_exit());
    frame.break_on_exit();
    assert!(frame.should_break_on_exit());
}

#[test]
fn remote_frames_say_where_they_stand() {
    let at = ResolvedLocation { uri: "a.masm".into(), line: 3, col: 1, start: 10, end: 20 };
    let mut frame = CallFrame::from_remote(Some("main".into()), Some(at));
    assert_eq!(frame.procedure("").unwrap(), "main");
    assert_eq!(frame.last_resolved(&SourceManager::new()).unwrap().text(), "a.masm:3:1");
    let stack = CallStack::from_remote_frames(vec![frame]);
    assert_eq!(stack.frames().len(), 1);
}

#[test]
fn frames_come_and_go_with_their_events() {
    let mut stack = CallStack::new(BTreeMap::new());
    let main = asmop("main", "call", 1, 0);
    let callee = asmop("main::f", "add", 1, 6);
    stack.record_event(2, TraceEvent::FrameStart);
    stack.record_event(4, TraceEvent::FrameEnd);
    let mut left = Vec::new();
    for clk in 1..6u32 {
        let op = if (2..4).contains(&clk) { &callee } else { &main };
        let info = StepInfo { op: Some(ADD), asmop: Some(op), clk, ctx: 0 };
        left.push(stack.next(&info).is_some());
    }
    assert_eq!(left.iter().filter(|l| **l).count(), 1);
    assert!(left[3]);
    assert!(stack.current_frame().is_some());
    assert_eq!(stack.frames().len(), 1);
    stack.current_frame_mut().unwrap().break_on_exit();
    assert!(stack.current_frame().unwrap().should_break_on_exit());
}

#[test]
fn stack_traces_show_how_the_program_got_here() {
    let sources = sources();
    let mut stack = CallStack::new(BTreeMap::new());
    let op = asmop("main", "drop", 1, 8);
    stack.next(&StepInfo { op: Some(ADD), asmop: Some(&op), clk: 1, ctx: 0 });
    assert!(stack.fits(&sources));
    let trace = stack.stacktrace(&sources);
    let current = trace.current_frame().unwrap();
    assert_eq!(current.location.as_ref().unwrap().text(), "main.masm:2:3");
    let recent = VecDeque::from(vec![ADD]);
    let text = trace.display(&mut stack, &recent, &sources);
    assert!(text.starts_with("\nStack Trace:\n"), "got {text}");
    assert!(text.contains(" in main.masm:2:3:\n\nLast 1 Instructions (of current frame):\n"));
    assert!(text.contains("Last 1 Instructions (any frame):\n |   add\n `-> <error occured here>\n"));
}

#[test]
fn failures_are_reported_with_the_last_state() {
    let program = miden_assembly::Assembler::new(std::sync::Arc::new(
        miden_assembly::DefaultSourceManager::default(),
    ))
    .assemble_program("begin push.1 drop end")
    .unwrap();
    let (mut executor, _) = Executor::new(Vec::new()).into_debug(&program).unwrap();
    let report = render_execution_error("boom", &mut executor, &SourceManager::new());
    assert_eq!(report.message, "program execution failed at step 0: boom");
    assert!(report.last_state.is_none());
    executor.current_stack = vec![3, 4];
    executor.cycle = 7;
    let report = render_execution_error("boom", &mut executor, &SourceManager::new());
    assert_eq!(report.message, "program execution failed at step 7 (cycle 7): boom");
    assert!(report.last_state.unwrap().contains("Operand Stack: [3, 4]"));
    assert!(report.location.is_none());
    assert_eq!(DisplayValues::new(vec![1, 2, 3]).text(), "1, 2, 3");
}

#[test]
fn pointers_count_bytes() {
    let ptr = NativePtr::from_ptr(17);
    assert_eq!((ptr.addr, ptr.offset), (4, 1));
    assert!(!ptr.is_element_aligned());
    assert!(NativePtr::from_ptr(16).is_element_aligned());
    assert!(NativePtr::from_ptr(16).is_word_aligned());
    assert!(!NativePtr::from_ptr(20).is_word_aligned());
}

#[test]
fn types_take_up_whole_elements() {
    assert_eq!(Type::U8.size_in_bytes(), 1);
    assert_eq!(Type::U8.size_in_felts(), 1);
    assert_eq!(Type::U64.size_in_felts(), 2);
    assert_eq!(Type::Word.size_in_felts(), 4);
    let odd = Type::Other { name: "odd".into(), size: 5 };
    assert_eq!(odd.size_in_felts(), 2);
    assert_eq!(odd.name(), "odd");
    assert_eq!(Type::Word.name(), "[felt; 4]");
}

#[test]
fn scalars_are_shown_by_their_type() {
    let show = |ty: Type, bytes: Vec<u8>, format: FormatType| show_scalar(&ty, &bytes, format);
    assert_eq!(show(Type::I1, vec![1], FormatType::Decimal).unwrap(), "true");
    assert_eq!(show(Type::I1, vec![0], FormatType::Hex).unwrap(), "0x0");
    assert_eq!(show(Type::I8, vec![0xff], FormatType::Decimal).unwrap(), "-1");
    assert_eq!(show(Type::I8, vec![0xff], FormatType::Binary).unwrap(), "11111111");
    assert_eq!(show(Type::U16, vec![1, 0], FormatType::Decimal).unwrap(), "256");
    assert_eq!(show(Type::I16, vec![0x80, 0], FormatType::Decimal).unwrap(), "-32768");
    assert_eq!(
        show(Type::I64, vec![0xff; 8], FormatType::Decimal).unwrap(),
        "-1"
    );
    assert_eq!(
        show(Type::U64, vec![0xff; 8], FormatType::Decimal).unwrap(),
        "18446744073709551615"
    );
    assert_eq!(
        show(Type::Felt, vec![0; 4], FormatType::Decimal).unwrap_err(),
        "support for reads of type 'felt' are not implemented yet"
    );
    assert_eq!(show_unsigned(10, FormatType::Hex), "a");
    assert_eq!(show_bool(true, FormatType::Binary), "0b1");
    assert_eq!(bytes_of_elements(&vec![0x0102_0304, 5], 6), vec![1, 2, 3, 4, 0, 0]);
}

#[test]
fn memory_errors_are_described() {
    assert_eq!(
        MemoryReadError::OutOfBounds.message(),
        "attempted to read beyond end of linear memory"
    );
    assert_eq!(
        MemoryReadError::UnalignedRead.message(),
        "unaligned reads are not supported yet"
    );
}
