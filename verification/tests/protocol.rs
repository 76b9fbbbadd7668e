//! Both sides of a debug session.
use miden_debug::exec::dap::{
    is_hit, DapSession, Place, StepMode, StepResult, StepSeen, StoredBreakpoint,
};
use miden_debug::exec::dap_client::{
    frame, read_message, wait_for_response, wait_for_stopped, DapClient, DapMessage, DapRequest,
    DapStopReason, Happening, MessageHeader, ResponseContent,
};
use miden_debug::exec::executor::Executor;
use miden_debug::exec::protocol::{
    read_cycle, state_json, DapBody, DapCommand, DapEvent, DapReply, MachineState, StopReason,
    Then,
};
use miden_debug::exec::state::StepError;

fn session() -> DapSession {
    let program = miden_assembly::Assembler::new(std::sync::Arc::new(
        miden_assembly::DefaultSourceManager::default(),
    ))
    .assemble_program("begin push.1 drop end")
    .unwrap();
    let (mut executor, _) = Executor::new(Vec::new()).into_debug(&program).unwrap();
    DapSession::new(executor.resume_ctx.take().unwrap(), None)
}

fn machine() -> MachineState {
    MachineState { stack: vec![5, 6], memory: vec![(255, 7)], at: None }
}

#[test]
fn the_handshake_leads_to_the_entry_of_the_program() {
    let mut session = session();
    let turn = session.handle(&DapCommand::Initialize, &machine());
    assert!(matches!(
        turn.reply,
        DapReply::Success(DapBody::Initialize {
            supports_configuration_done: true,
            supports_stepping_granularity: true
        })
    ));
    assert!(matches!(turn.event, Some(DapEvent::Initialized)));
    assert_eq!(turn.then_do, Then::Poll);
    let turn = session.handle(&DapCommand::Launch, &machine());
    assert!(matches!(turn.reply, DapReply::Success(DapBody::Launch)));
    let turn = session.handle(&DapCommand::ConfigurationDone, &machine());
    match turn.event {
        Some(DapEvent::Stopped { reason, description, thread_id }) => {
            assert_eq!(reason, StopReason::Entry);
            assert_eq!(description.unwrap(), "Paused at program entry");
            assert_eq!(thread_id, 1);
        }
        other => panic!("unexpected event: {other:?}"),
    }
    let turn = session.handle(&DapCommand::Disconnect, &machine());
    assert_eq!(turn.then_do, Then::End);
}

#[test]
fn requests_to_go_on_say_how_far() {
    let mut session = session();
    let wanted = [
        (DapCommand::Continue, StepMode::UntilBreakpoint),
        (DapCommand::Next, StepMode::Over),
        (DapCommand::StepIn, StepMode::One),
        (DapCommand::StepOut, StepMode::Out),
    ];
    for (command, mode) in wanted {
        assert_eq!(session.handle(&command, &machine()).then_do, Then::Run(mode));
    }
}

#[test]
fn questions_are_answered() {
    let mut session = session();
    match session.handle(&DapCommand::Threads, &machine()).reply {
        DapReply::Success(DapBody::Threads { id, name }) => {
            assert_eq!((id, name.as_str()), (1, "main"));
        }
        other => panic!("unexpected reply: {other:?}"),
    }
    match session.handle(&DapCommand::Scopes, &machine()).reply {
        DapReply::Success(DapBody::Scopes(scopes)) => {
            assert_eq!(scopes[0].name, "Operand Stack");
            assert_eq!(scopes[1].name, "Memory");
            assert_eq!((scopes[0].variables_reference, scopes[1].variables_reference), (1, 2));
        }
        other => panic!("unexpected reply: {other:?}"),
    }
    match session.handle(&DapCommand::StackTrace, &machine()).reply {
        DapReply::Success(DapBody::StackTrace { frame, total_frames }) => {
            assert_eq!(frame.name, "cycle 0");
            assert!(frame.source.is_none());
            assert_eq!(total_frames, 1);
        }
        other => panic!("unexpected reply: {other:?}"),
    }
    match session.handle(&DapCommand::Variables(2), &machine()).reply {
        DapReply::Success(DapBody::Variables(variables)) => {
            assert_eq!(variables[0].name, "0x000000ff");
            assert_eq!(variables[0].value, "7");
        }
        other => panic!("unexpected reply: {other:?}"),
    }
}

#[test]
fn the_frame_names_its_source() {
    let mut session = session();
    session.current_asmop = Some(miden_debug::debug::op::AssemblyOp::new(
        None,
        "main::foo".into(),
        1,
        "add".into(),
    ));
    let at = Some(Place { path: "src/lib/main.masm".into(), line: 12 });
    let machine = MachineState { at, ..machine() };
    match session.handle(&DapCommand::StackTrace, &machine).reply {
        DapReply::Success(DapBody::StackTrace { frame, .. }) => {
            assert_eq!(frame.name, "main::foo");
            let source = frame.source.unwrap();
            assert_eq!((source.name.as_str(), source.path.as_str()), ("main.masm", "src/lib/main.masm"));
            assert_eq!((frame.line, frame.column), (12, 0));
        }
        other => panic!("unexpected reply: {other:?}"),
    }
    let unknown = MachineState { at: None, ..machine };
    match session.handle(&DapCommand::StackTrace, &unknown).reply {
        DapReply::Success(DapBody::StackTrace { frame, .. }) => {
            assert_eq!(frame.source.unwrap().path, "<unknown>");
            assert_eq!(frame.line, 0);
        }
        other => panic!("unexpected reply: {other:?}"),
    }
}

#[test]
fn what_is_not_supported_is_refused() {
    let mut session = session();
    match session.handle(&DapCommand::Evaluate("1 + 1".into()), &machine()).reply {
        DapReply::Error(m) => assert_eq!(m, "Unsupported expression"),
        other => panic!("unexpected reply: {other:?}"),
    }
    match session.handle(&DapCommand::Other, &machine()).reply {
        DapReply::Error(m) => assert_eq!(m, "Unsupported command"),
        other => panic!("unexpected reply: {other:?}"),
    }
}

#[test]
fn the_state_can_be_asked_for_and_read() {
    let mut session = session();
    session.cycle = 17;
    match session.handle(&DapCommand::Evaluate("__miden_state".into()), &machine()).reply {
        DapReply::Success(DapBody::Evaluate { result, kind }) => {
            assert_eq!(result, "{\"cycle\":17,\"stopped\":false}");
            assert_eq!(kind, "json");
            assert_eq!(read_cycle(&result), Some(17));
        }
        other => panic!("unexpected reply: {other:?}"),
    }
    assert_eq!(state_json(3, true), "{\"cycle\":3,\"stopped\":true}");
    assert_eq!(read_cycle("{}"), None);
    assert_eq!(read_cycle("{\"cycle\":\"3\"}"), None);
    assert_eq!(read_cycle("{\"cycle\":3.5}"), None);
    assert_eq!(read_cycle("{\"cycle\":-3}"), None);
    assert_eq!(read_cycle("no json"), None);
}

#[test]
fn breakpoints_are_replaced_file_by_file() {
    let mut session = session();
    let set = session.set_breakpoints("a.masm", &vec![1, 2]);
    assert_eq!(set.len(), 2);
    session.set_breakpoints("b.masm", &vec![3]);
    session.set_breakpoints("a.masm", &vec![9]);
    let lines: Vec<(String, i64)> =
        session.breakpoints.iter().map(|b| (b.path.clone(), b.line)).collect();
    assert_eq!(lines, vec![("b.masm".into(), 3), ("a.masm".into(), 9)]);
    session.handle(&DapCommand::SetBreakpoints { path: None, lines: Some(vec![4]) }, &machine());
    assert_eq!(session.breakpoints[2].path, "");
}

#[test]
fn breakpoints_match_where_one_path_ends_with_the_other() {
    let set = vec![StoredBreakpoint { path: "/work/src/main.masm".into(), line: 3 }];
    let place = |path: &str, line: i64| Place { path: path.into(), line };
    assert!(is_hit(&set, &place("main.masm", 3)));
    assert!(is_hit(&set, &place("/x/work/src/main.masm", 3)));
    assert!(!is_hit(&set, &place("/work/src/main.masm.bak", 3)));
    assert!(!is_hit(&set, &place("main.masm", 4)));
    assert!(!is_hit(&set, &place("other.masm", 3)));
}

#[test]
fn stepping_out_ends_outside_of_the_procedure() {
    let mut session = session();
    session.on_trace(240);
    session.on_trace(240);
    assert_eq!(session.call_depth, 2);
    let run = session.begin_run(StepMode::Out);
    assert_eq!(run.start_depth, 2);
    let ctx = session.take_step().unwrap();
    let seen = StepSeen::Running { resume_ctx: ctx, asmop: None, at: None };
    assert!(session.finish_step(&run, seen).is_none());
    session.on_trace(252);
    let ctx = session.take_step().unwrap();
    let seen = StepSeen::Running { resume_ctx: ctx, asmop: None, at: None };
    assert!(matches!(session.finish_step(&run, seen), Some(StepResult::Stepped)));
    assert_eq!(session.cycle, 2);
    session.on_trace(252);
    session.on_trace(252);
    assert_eq!(session.call_depth, 0);
}

#[test]
fn stepping_out_of_everything_runs_to_the_end() {
    let mut session = session();
    let run = session.begin_run(StepMode::Out);
    for _ in 0..2 {
        let ctx = session.take_step().unwrap();
        let seen = StepSeen::Running { resume_ctx: ctx, asmop: None, at: None };
        assert!(session.finish_step(&run, seen).is_none());
    }
    session.take_step().unwrap();
    let ended = session.finish_step(&run, StepSeen::Completed);
    assert!(matches!(ended, Some(StepResult::Terminated)));
    assert_eq!(session.cycle, 3);
}

#[test]
fn places_matter_only_on_the_way_to_a_breakpoint() {
    let mut session = session();
    let run = session.begin_run(StepMode::UntilBreakpoint);
    assert!(!session.needs_place(&run));
    session.set_breakpoints("a.masm", &vec![1]);
    assert!(session.needs_place(&run));
    assert!(!session.needs_place(&session.begin_run(StepMode::One)));
}

#[test]
fn the_client_is_told_how_a_run_ended() {
    let session = session();
    let (event, error) = session.finish_run(StepMode::UntilBreakpoint, StepResult::Breakpoint(3));
    assert!(matches!(
        event,
        DapEvent::Stopped { reason: StopReason::Breakpoint, description: Some(_), thread_id: 1 }
    ));
    assert!(error.is_none());
    let (event, _) = session.finish_run(StepMode::One, StepResult::Stepped);
    assert!(matches!(
        event,
        DapEvent::Stopped { reason: StopReason::Step, description: None, thread_id: 1 }
    ));
    let (event, _) = session.finish_run(StepMode::Over, StepResult::Terminated);
    assert!(matches!(event, DapEvent::Terminated));
    let failure = StepError { message: "boom".into() };
    let (event, error) = session.finish_run(StepMode::Out, StepResult::Error(failure));
    assert!(matches!(event, DapEvent::Terminated));
    assert_eq!(error.unwrap().message, "boom");
}

fn body_of(framed: &str) -> serde_json::Value {
    let (header, body) = framed.split_once("\r\n\r\n").unwrap();
    assert_eq!(header, format!("Content-Length: {}", body.len()));
    serde_json::from_str(body).unwrap()
}

#[test]
fn requests_are_numbered_and_framed() {
    let mut client = DapClient::new();
    let body = body_of(&client.send_request(&DapRequest::Launch));
    assert_eq!(body["seq"], 1);
    assert_eq!(body["command"], "launch");
    assert!(body["arguments"].as_object().unwrap().is_empty());
    let body = body_of(&client.send_request(&DapRequest::StepIn));
    assert_eq!(body["seq"], 2);
    assert_eq!(body["arguments"]["threadId"], 1);
    let body = body_of(&client.send_request(&DapRequest::Initialize));
    assert_eq!(body["arguments"]["adapterID"], "miden-debug-tui");
    assert_eq!(body["arguments"]["clientName"], "miden-debug TUI");
    assert_eq!(body["arguments"]["linesStartAt1"], true);
    assert_eq!(body["arguments"]["columnsStartAt1"], true);
    let body = body_of(&client.send_request(&DapRequest::Variables(2)));
    assert_eq!(body["arguments"]["variablesReference"], 2);
    let body = body_of(&client.send_request(&DapRequest::Evaluate("x \"y\"".into())));
    assert_eq!(body["arguments"]["expression"], "x \"y\"");
    let request = DapRequest::SetBreakpoints { path: "a.masm".into(), lines: vec![3, -4] };
    let body = body_of(&client.send_request(&request));
    assert_eq!(body["command"], "setBreakpoints");
    assert_eq!(body["arguments"]["source"]["path"], "a.masm");
    assert_eq!(body["arguments"]["breakpoints"][0]["line"], 3);
    assert_eq!(body["arguments"]["breakpoints"][1]["line"], -4);
    assert_eq!(client.seq, 6);
}

#[test]
fn requests_have_names_and_some_let_the_program_run() {
    let all = [
        (DapRequest::Initialize, "initialize", false),
        (DapRequest::Launch, "launch", false),
        (DapRequest::ConfigurationDone, "configurationDone", true),
        (DapRequest::StepIn, "stepIn", true),
        (DapRequest::Next, "next", true),
        (DapRequest::StepOut, "stepOut", true),
        (DapRequest::Continue, "continue", true),
        (DapRequest::StackTrace, "stackTrace", false),
        (DapRequest::Disconnect, "disconnect", false),
    ];
    for (request, name, runs) in all {
        assert_eq!(request.command_name(), name);
        assert_eq!(request.awaits_stop(), runs);
    }
    assert_eq!(DapClient::handshake().len(), 3);
}

#[test]
fn headers_are_read_line_by_line() {
    let text = frame("häh");
    let mut header = MessageHeader::new();
    assert!(!header.feed("\r\n").unwrap());
    let mut lines = text.split_inclusive('\n');
    assert!(!header.feed(lines.next().unwrap()).unwrap());
    assert_eq!(header.content_length, 4);
    assert!(!header.feed("Content-Type: json\r\n").unwrap());
    assert!(header.feed(lines.next().unwrap()).unwrap());
    assert_eq!(
        header.feed("Content-Length: x\r\n").unwrap_err(),
        "invalid Content-Length: invalid digit found in string"
    );
    assert_eq!(header.content_length, 4);
}

fn message(text: &str) -> Result<DapMessage, String> {
    read_message(text.as_bytes().to_vec())
}

fn response(body: &str) -> Result<DapMessage, String> {
    message(&format!(
        "{{\"seq\":1,\"type\":\"response\",\"request_seq\":1,\"success\":true,\"error\":null,{body}}}"
    ))
}

#[test]
fn responses_are_read() {
    let trace = "\"command\":\"stackTrace\",\"body\":{\"stackFrames\":[{\"id\":0,\"name\":\"main\",\
                 \"source\":{\"path\":\"a.masm\"},\"line\":3,\"column\":0}],\"totalFrames\":1}";
    let answered = wait_for_response(response(trace).unwrap(), 1).unwrap().unwrap();
    let frames = DapClient::stack_trace(answered).unwrap();
    assert_eq!(frames[0].name, "main");
    assert_eq!(frames[0].path.as_deref(), Some("a.masm"));
    assert_eq!((frames[0].line, frames[0].column), (3, 0));

    let variables = "\"command\":\"variables\",\"body\":{\"variables\":[{\"name\":\"[0]\",\
                     \"value\":\"5\",\"variablesReference\":0}]}";
    let answered = wait_for_response(response(variables).unwrap(), 1).unwrap().unwrap();
    let variables = DapClient::variables(answered).unwrap();
    assert_eq!((variables[0].name.as_str(), variables[0].value.as_str()), ("[0]", "5"));

    let evaluate = "\"command\":\"evaluate\",\"body\":{\"result\":\"42\",\"variablesReference\":0}";
    let answered = wait_for_response(response(evaluate).unwrap(), 1).unwrap().unwrap();
    assert_eq!(DapClient::evaluate(answered).unwrap(), "42");

    let launch = || wait_for_response(response("\"command\":\"launch\"").unwrap(), 1).unwrap().unwrap();
    assert!(matches!(launch().content, ResponseContent::Other));
    assert_eq!(
        DapClient::stack_trace(launch()).unwrap_err(),
        "unexpected response to stackTrace"
    );
    assert_eq!(DapClient::variables(launch()).unwrap_err(), "unexpected response to variables");
    assert_eq!(DapClient::evaluate(launch()).unwrap_err(), "unexpected response to evaluate");
}

#[test]
fn responses_to_other_requests_are_passed_over() {
    let answered = || response("\"command\":\"launch\"").unwrap();
    assert!(wait_for_response(answered(), 2).is_none());
    assert!(wait_for_response(answered(), 0).is_none());
    assert_eq!(wait_for_response(answered(), 1).unwrap().unwrap().request_seq, 1);
}

#[test]
fn refusals_are_reported() {
    let refused = "{\"seq\":1,\"type\":\"response\",\"request_seq\":1,\"success\":false,\
                   \"message\":\"Unsupported command\",\"error\":null}";
    let answer = wait_for_response(message(refused).unwrap(), 1).unwrap();
    assert_eq!(answer.unwrap_err(), "DAP error: Error(\"Unsupported command\")");
    let silent = "{\"seq\":1,\"type\":\"response\",\"request_seq\":1,\"success\":false,\
                  \"error\":null}";
    let answer = wait_for_response(message(silent).unwrap(), 1).unwrap();
    assert_eq!(answer.unwrap_err(), "DAP error: unknown error");
}

#[test]
fn events_are_read() {
    let stopped = message(
        "{\"seq\":1,\"type\":\"event\",\"event\":\"stopped\",\"body\":{\"reason\":\"step\"}}",
    )
    .unwrap();
    assert!(matches!(stopped, DapMessage::Event(Happening::Stopped)));
    assert_eq!(wait_for_stopped(&stopped), Some(DapStopReason::Stopped));
    assert!(wait_for_response(stopped, 1).is_none());
    let terminated =
        message("{\"seq\":1,\"type\":\"event\",\"event\":\"terminated\",\"body\":null}").unwrap();
    assert_eq!(wait_for_stopped(&terminated), Some(DapStopReason::Terminated));
    let other = message("{\"seq\":1,\"type\":\"event\",\"event\":\"initialized\"}").unwrap();
    assert_eq!(wait_for_stopped(&other), None);
}

#[test]
fn faulty_messages_are_reported() {
    assert!(read_message(vec![0xff]).unwrap_err().starts_with("invalid utf-8: "));
    assert!(message("no json").unwrap_err().starts_with("JSON parse error: "));
    assert_eq!(message("{}").unwrap_err(), "unexpected message type: None");
    assert_eq!(
        message("{\"type\":\"request\"}").unwrap_err(),
        "unexpected message type: Some(\"request\")"
    );
    assert!(message("{\"type\":\"response\"}").unwrap_err().starts_with("response parse error: "));
    assert!(message("{\"type\":\"event\"}").unwrap_err().starts_with("event parse error: "));
}
