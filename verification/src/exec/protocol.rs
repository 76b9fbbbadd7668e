//! What a debug server answers to the requests of its client.
use miden_processor::FastProcessor;
use vstd::prelude::*;
use vstd::string::*;

use crate::debug::op::{AssemblyOp, AssemblyOpView};
use crate::exec::dap::{DapSession, Place, PlaceView, StepMode, StepResult, StoredBreakpoint};
use crate::exec::json::JsonView;
use crate::exec::state::StepError;

verus! {

/// The number of the scope that holds the operand stack.
pub const SCOPE_STACK: i64 = 1;

/// The number of the scope that holds the memory.
pub const SCOPE_MEMORY: i64 = 2;

/// The number of the only thread.
pub const MAIN_THREAD: i64 = 1;

// ---------------------------------------------------------------------------------------------
// Requests
// ---------------------------------------------------------------------------------------------

/// What a client asks for.
#[derive(Debug)]
pub enum DapCommand {
    Initialize,
    Launch,
    ConfigurationDone,
    Disconnect,
    Continue,
    Next,
    StepIn,
    StepOut,
    Threads,
    StackTrace,
    Scopes,
    /// The variables of the scope with this number.
    Variables(i64),
    /// The breakpoints that a source file is to have.
    SetBreakpoints { path: Option<String>, lines: Option<Vec<i64>> },
    Evaluate(String),
    /// Anything else.
    Other,
}

/// What the virtual machine holds when a request comes in.
#[derive(Debug)]
pub struct MachineState {
    /// The operand stack, the top first.
    pub stack: Vec<u64>,
    /// The memory of the current context: addresses and elements.
    pub memory: Vec<(u32, u64)>,
    /// Where the instruction that comes next stands in the sources.
    pub at: Option<Place>,
}

impl MachineState {
    /// What the virtual machine holds.
    pub fn read(processor: &FastProcessor, at: Option<Place>) -> (r: Self)
        ensures
            r.stack@ == crate::exec::trace::stack_of(*processor),
            crate::exec::trace::lists(
                r.memory@,
                crate::exec::trace::memory_of(*processor),
                crate::exec::trace::context_of(*processor),
            ),
            r.at == at,
    {
        MachineState {
            stack: crate::exec::trace::stack_state(processor),
            memory: crate::exec::trace::memory_listing(processor),
            at,
        }
    }
}

// ---------------------------------------------------------------------------------------------
// Replies
// ---------------------------------------------------------------------------------------------

/// A call frame, as the client is told of it.
#[derive(Debug)]
pub struct DapFrame {
    pub id: i64,
    pub name: String,
    pub source: Option<DapSource>,
    pub line: i64,
    pub column: i64,
}

/// A source file, as the client is told of it.
#[derive(Debug)]
pub struct DapSource {
    pub name: String,
    pub path: String,
}

/// What a [`DapFrame`] says; the source by its name and its path.
pub struct DapFrameView {
    pub id: i64,
    pub name: Seq<char>,
    pub source: Option<(Seq<char>, Seq<char>)>,
    pub line: i64,
    pub column: i64,
}

impl View for DapFrame {
    type V = DapFrameView;

    open spec fn view(&self) -> DapFrameView {
        DapFrameView {
            id: self.id,
            name: self.name@,
            source: match self.source {
                Some(s) => Some((s.name@, s.path@)),
                None => None,
            },
            line: self.line,
            column: self.column,
        }
    }
}

/// A group of variables.
#[derive(Debug)]
pub struct DapScope {
    pub name: String,
    pub variables_reference: i64,
    pub expensive: bool,
}

/// What a [`DapScope`] says.
pub struct DapScopeView {
    pub name: Seq<char>,
    pub variables_reference: i64,
    pub expensive: bool,
}

impl View for DapScope {
    type V = DapScopeView;

    open spec fn view(&self) -> DapScopeView {
        DapScopeView {
            name: self.name@,
            variables_reference: self.variables_reference,
            expensive: self.expensive,
        }
    }
}

/// A variable, with its value.
#[derive(Debug)]
pub struct DapVariable {
    pub name: String,
    pub value: String,
    /// The type of the value.
    pub kind: String,
}

/// What a [`DapVariable`] says.
pub struct DapVariableView {
    pub name: Seq<char>,
    pub value: Seq<char>,
    pub kind: Seq<char>,
}

impl View for DapVariable {
    type V = DapVariableView;

    open spec fn view(&self) -> DapVariableView {
        DapVariableView { name: self.name@, value: self.value@, kind: self.kind@ }
    }
}

/// What a client is told in reply to a request that succeeds.
#[derive(Debug)]
pub enum DapBody {
    Initialize { supports_configuration_done: bool, supports_stepping_granularity: bool },
    Launch,
    /// The request is acknowledged.
    Ack,
    Continue { all_threads_continued: bool },
    Next,
    StepIn,
    StepOut,
    /// The only thread, by its number and its name.
    Threads { id: i64, name: String },
    /// The frames, and how many there are.
    StackTrace { frame: DapFrame, total_frames: i64 },
    Scopes(Vec<DapScope>),
    Variables(Vec<DapVariable>),
    /// The breakpoints that are now set in a source file, all of them verified.
    SetBreakpoints(Vec<StoredBreakpoint>),
    Evaluate { result: String, kind: String },
}

/// What a client is told in reply to a request.
#[derive(Debug)]
pub enum DapReply {
    Success(DapBody),
    Error(String),
}

/// What a [`DapReply`] says.
pub enum ReplyView {
    Initialize { supports_configuration_done: bool, supports_stepping_granularity: bool },
    Launch,
    Ack,
    Continue { all_threads_continued: bool },
    Next,
    StepIn,
    StepOut,
    Threads { id: i64, name: Seq<char> },
    StackTrace { frame: DapFrameView, total_frames: i64 },
    Scopes(Seq<DapScopeView>),
    Variables(Seq<DapVariableView>),
    SetBreakpoints(Seq<PlaceView>),
    Evaluate { result: Seq<char>, kind: Seq<char> },
    Error(Seq<char>),
}

impl View for DapReply {
    type V = ReplyView;

    open spec fn view(&self) -> ReplyView {
        match self {
            DapReply::Error(m) => ReplyView::Error(m@),
            DapReply::Success(body) => match body {
                DapBody::Initialize {
                    supports_configuration_done,
                    supports_stepping_granularity,
                } => ReplyView::Initialize {
                    supports_configuration_done: *supports_configuration_done,
                    supports_stepping_granularity: *supports_stepping_granularity,
                },
                DapBody::Launch => ReplyView::Launch,
                DapBody::Ack => ReplyView::Ack,
                DapBody::Continue { all_threads_continued } => ReplyView::Continue {
                    all_threads_continued: *all_threads_continued,
                },
                DapBody::Next => ReplyView::Next,
                DapBody::StepIn => ReplyView::StepIn,
                DapBody::StepOut => ReplyView::StepOut,
                DapBody::Threads { id, name } => ReplyView::Threads { id: *id, name: name@ },
                DapBody::StackTrace { frame, total_frames } => ReplyView::StackTrace {
                    frame: frame@,
                    total_frames: *total_frames,
                },
                DapBody::Scopes(scopes) => ReplyView::Scopes(
                    scopes@.map_values(|s: DapScope| s@),
                ),
                DapBody::Variables(variables) => ReplyView::Variables(
                    variables@.map_values(|v: DapVariable| v@),
                ),
                DapBody::SetBreakpoints(breakpoints) => ReplyView::SetBreakpoints(
                    crate::exec::dap::breakpoint_views(breakpoints@),
                ),
                DapBody::Evaluate { result, kind } => ReplyView::Evaluate {
                    result: result@,
                    kind: kind@,
                },
            },
        }
    }
}

/// Why the program has stopped.
#[derive(Debug, Clone, Copy, PartialEq, Eq, Structural)]
pub enum StopReason {
    Entry,
    Breakpoint,
    Step,
}

/// What a client is told of its own accord.
#[derive(Debug)]
pub enum DapEvent {
    Initialized,
    /// The program has stopped, with all its threads.
    Stopped { reason: StopReason, description: Option<String>, thread_id: i64 },
    /// The program has come to its end.
    Terminated,
}

/// What a [`DapEvent`] says.
pub enum EventView {
    Initialized,
    Stopped { reason: StopReason, description: Option<Seq<char>>, thread_id: i64 },
    Terminated,
}

impl View for DapEvent {
    type V = EventView;

    open spec fn view(&self) -> EventView {
        match self {
            DapEvent::Initialized => EventView::Initialized,
            DapEvent::Stopped { reason, description, thread_id } => EventView::Stopped {
                reason: *reason,
                description: crate::debug::op::text_view(*description),
                thread_id: *thread_id,
            },
            DapEvent::Terminated => EventView::Terminated,
        }
    }
}

/// What the server does once it has replied.
#[derive(Debug, Clone, Copy, PartialEq, Eq, Structural)]
pub enum Then {
    /// It waits for the next request.
    Poll,
    /// It runs the program for a while.
    Run(StepMode),
    /// It ends the session.
    End,
}

/// How a server deals with a request.
#[derive(Debug)]
pub struct DapTurn {
    pub reply: DapReply,
    /// What the client is told behind the reply.
    pub event: Option<DapEvent>,
    pub then_do: Then,
}

/// What a [`DapTurn`] says.
pub struct TurnView {
    pub reply: ReplyView,
    pub event: Option<EventView>,
    pub then_do: Then,
}

impl View for DapTurn {
    type V = TurnView;

    open spec fn view(&self) -> TurnView {
        TurnView {
            reply: self.reply@,
            event: match self.event {
                Some(e) => Some(e@),
                None => None,
            },
            then_do: self.then_do,
        }
    }
}

// ---------------------------------------------------------------------------------------------
// What is shown
// ---------------------------------------------------------------------------------------------

/// `[i]`
pub open spec fn slot_name(i: nat) -> Seq<char> {
    "["@ + crate::text::decimal(i) + "]"@
}

/// The address in eight hexadecimal digits.
pub open spec fn address_name(addr: u32) -> Seq<char> {
    "0x"@ + crate::text::padded_left(crate::text::digits(addr as nat, 16), '0', 8)
}

/// A field element, as the client is told of it.
pub open spec fn felt_variable(name: Seq<char>, value: u64) -> DapVariableView {
    DapVariableView { name, value: crate::text::decimal(value as nat), kind: "Felt"@ }
}

/// The operand stack, as the client is told of it.
pub open spec fn stack_variables(stack: Seq<u64>) -> Seq<DapVariableView> {
    Seq::new(stack.len(), |i: int| felt_variable(slot_name(i as nat), stack[i]))
}

/// The memory, as the client is told of it.
pub open spec fn memory_variables(memory: Seq<(u32, u64)>) -> Seq<DapVariableView> {
    Seq::new(
        memory.len(),
        |i: int| felt_variable(address_name(memory[i].0), memory[i].1),
    )
}

/// The only frame that the client is told of: the procedure of the instruction that comes next,
/// or the number of cycles where there is none.
pub open spec fn frame_shown(
    asmop: Option<AssemblyOpView>,
    at: Option<PlaceView>,
    cycle: usize,
) -> DapFrameView {
    match asmop {
        Some(asmop) => {
            let place = match at {
                Some(at) => at,
                None => PlaceView { path: "<unknown>"@, line: 0 },
            };
            DapFrameView {
                id: 0,
                name: asmop.context_name,
                source: Some((crate::text::last_part(place.path, '/'), place.path)),
                line: place.line,
                column: 0,
            }
        },
        None => DapFrameView {
            id: 0,
            name: "cycle "@ + crate::text::decimal(cycle as nat),
            source: None,
            line: 0,
            column: 0,
        },
    }
}

/// The scopes that there are.
pub open spec fn scopes_shown() -> Seq<DapScopeView> {
    seq![
        DapScopeView {
            name: "Operand Stack"@,
            variables_reference: SCOPE_STACK,
            expensive: false,
        },
        DapScopeView { name: "Memory"@, variables_reference: SCOPE_MEMORY, expensive: false },
    ]
}

/// The state of the program as a JSON object.
pub open spec fn state_value(cycle: usize, stopped: bool) -> JsonView {
    JsonView::Object(
        Map::empty().insert("cycle"@, JsonView::Number(crate::text::decimal(cycle as nat))).insert(
            "stopped"@,
            JsonView::Bool(stopped),
        ),
    )
}

/// Writes the state of the program down, as a JSON object. It can be read back.
pub fn state_json(cycle: usize, stopped: bool) -> (r: String)
    ensures
        r@ == crate::exec::json::json_text(state_value(cycle, stopped)),
        crate::exec::json::json_parsed(r@) == Ok::<JsonView, Seq<char>>(
            state_value(cycle, stopped),
        ),
{
    let mut state = crate::exec::json::empty_object();
    crate::exec::json::put(&mut state, "cycle", crate::exec::json::natural(cycle as u64));
    crate::exec::json::put(&mut state, "stopped", crate::exec::json::boolean(stopped));
    proof {
        let view = crate::exec::json::json_of(state);
        assert(crate::text::decimal(cycle as nat) == crate::text::decimal(cycle as u64 as nat));
        assert(view == state_value(cycle, stopped));
        assert(view.flat());
    }
    crate::exec::json::write(&state)
}

/// How many cycles a state that was written down speaks of; none where the text is no JSON object
/// with a member `cycle` that is a natural number.
pub open spec fn state_cycle(text: Seq<char>) -> Option<u64> {
    match crate::exec::json::json_parsed(text) {
        Ok(state) => state.member_u64("cycle"@),
        Err(_) => None,
    }
}

/// How many cycles a state that was written down speaks of.
pub fn read_cycle(text: &str) -> (r: Option<u64>)
    ensures
        r == state_cycle(text@),
{
    match crate::exec::json::parse(text) {
        Ok(state) => crate::exec::json::member_u64(&state, "cycle"),
        Err(_) => None,
    }
}

/// What is read of a state that was written down is the number of cycles it was written with.
pub proof fn the_cycle_reads_back(text: Seq<char>, cycle: usize, stopped: bool)
    requires
        crate::exec::json::json_parsed(text) == Ok::<JsonView, Seq<char>>(
            state_value(cycle, stopped),
        ),
    ensures
        state_cycle(text) == Some(cycle as u64),
{
    reveal_strlit("cycle");
    reveal_strlit("stopped");
    assert("cycle"@ != "stopped"@) by {
        assert("cycle"@.len() != "stopped"@.len());
    }
    crate::text::decimal_reads_back(cycle as nat, u64::MAX as nat);
}

// ---------------------------------------------------------------------------------------------
// Dealing with requests
// ---------------------------------------------------------------------------------------------

/// The expression that stands for the state of the program.
pub open spec fn state_query() -> Seq<char> {
    "__miden_state"@
}

/// A turn that answers a question.
pub open spec fn answer(reply: ReplyView) -> TurnView {
    TurnView { reply, event: None, then_do: Then::Poll }
}

/// A turn that lets the program run for a while.
pub open spec fn go(reply: ReplyView, mode: StepMode) -> TurnView {
    TurnView { reply, event: None, then_do: Then::Run(mode) }
}

/// The file whose breakpoints are set; one with no name where the client gives none.
pub open spec fn file_named(path: Option<String>) -> Seq<char> {
    match path {
        Some(p) => p@,
        None => Seq::empty(),
    }
}

/// The lines at which breakpoints are set.
pub open spec fn lines_named(lines: Option<Vec<i64>>) -> Seq<i64> {
    match lines {
        Some(l) => l@,
        None => Seq::empty(),
    }
}

/// The variables of a scope; none where there is no such scope.
pub open spec fn variables_shown(scope: i64, machine: MachineState) -> Seq<DapVariableView> {
    if scope == SCOPE_STACK {
        stack_variables(machine.stack@)
    } else if scope == SCOPE_MEMORY {
        memory_variables(machine.memory@)
    } else {
        Seq::empty()
    }
}

impl DapSession {
    /// How a request is dealt with.
    pub open spec fn turn(self, command: DapCommand, machine: MachineState) -> TurnView {
        match command {
            DapCommand::Initialize => TurnView {
                reply: ReplyView::Initialize {
                    supports_configuration_done: true,
                    supports_stepping_granularity: true,
                },
                event: Some(EventView::Initialized),
                then_do: Then::Poll,
            },
            DapCommand::Launch => answer(ReplyView::Launch),
            DapCommand::ConfigurationDone => TurnView {
                reply: ReplyView::Ack,
                event: Some(
                    EventView::Stopped {
                        reason: StopReason::Entry,
                        description: Some("Paused at program entry"@),
                        thread_id: MAIN_THREAD,
                    },
                ),
                then_do: Then::Poll,
            },
            DapCommand::Disconnect => TurnView {
                reply: ReplyView::Ack,
                event: None,
                then_do: Then::End,
            },
            DapCommand::Continue => go(
                ReplyView::Continue { all_threads_continued: true },
                StepMode::UntilBreakpoint,
            ),
            DapCommand::Next => go(ReplyView::Next, StepMode::Over),
            DapCommand::StepIn => go(ReplyView::StepIn, StepMode::One),
            DapCommand::StepOut => go(ReplyView::StepOut, StepMode::Out),
            DapCommand::Threads => answer(
                ReplyView::Threads { id: MAIN_THREAD, name: "main"@ },
            ),
            DapCommand::StackTrace => answer(
                ReplyView::StackTrace {
                    frame: frame_shown(
                        crate::debug::op::asmop_view(self.current_asmop),
                        crate::exec::dap::place_view(machine.at),
                        self.cycle,
                    ),
                    total_frames: 1,
                },
            ),
            DapCommand::Scopes => answer(ReplyView::Scopes(scopes_shown())),
            DapCommand::Variables(scope) => answer(
                ReplyView::Variables(variables_shown(scope, machine)),
            ),
            DapCommand::SetBreakpoints { path, lines } => answer(
                ReplyView::SetBreakpoints(
                    crate::exec::dap::breakpoints_at(file_named(path), lines_named(lines)),
                ),
            ),
            DapCommand::Evaluate(expression) => if expression@ == state_query() {
                answer(
                    ReplyView::Evaluate {
                        result: crate::exec::json::json_text(
                            state_value(self.cycle, self.resume_ctx is None),
                        ),
                        kind: "json"@,
                    },
                )
            } else {
                answer(ReplyView::Error("Unsupported expression"@))
            },
            DapCommand::Other => answer(ReplyView::Error("Unsupported command"@)),
        }
    }

    /// Replaces the breakpoints of one file. Returns those that are now set in it.
    pub fn set_breakpoints(&mut self, path: &str, lines: &Vec<i64>) -> (r: Vec<StoredBreakpoint>)
        ensures
            crate::exec::dap::breakpoint_views(final(self).breakpoints@)
                == crate::exec::dap::replaced(
                crate::exec::dap::breakpoint_views(old(self).breakpoints@),
                path@,
                lines@,
            ),
            crate::exec::dap::breakpoint_views(r@) == crate::exec::dap::breakpoints_at(
                path@,
                lines@,
            ),
            *final(self) == (DapSession {
                breakpoints: final(self).breakpoints,
                ..*old(self)
            }),
    {
        let ghost before = crate::exec::dap::breakpoint_views(self.breakpoints@);
        let ghost other = |b: PlaceView| b.path != path@;
        let mut kept: Vec<StoredBreakpoint> = Vec::new();
        let mut i: usize = 0;
        proof {
            reveal(Seq::filter);
            assert(before.take(0) =~= Seq::<PlaceView>::empty());
            assert(crate::exec::dap::breakpoint_views(kept@) =~= before.take(0).filter(other));
        }
        while i < self.breakpoints.len()
            invariant
                *self == *old(self),
                i <= self.breakpoints@.len(),
                before == crate::exec::dap::breakpoint_views(self.breakpoints@),
                other == (|b: PlaceView| b.path != path@),
                crate::exec::dap::breakpoint_views(kept@) == before.take(i as int).filter(other),
            decreases self.breakpoints@.len() - i,
        {
            let b = &self.breakpoints[i];
            proof {
                reveal(Seq::filter);
                assert(before.take(i + 1).drop_last() =~= before.take(i as int));
                assert(before.take(i + 1).last() == b@);
            }
            if !crate::text::same(b.path.as_str(), path) {
                let copy = StoredBreakpoint { path: b.path.clone(), line: b.line };
                proof {
                    assert(crate::exec::dap::breakpoint_views(kept@.push(copy))
                        =~= crate::exec::dap::breakpoint_views(kept@).push(copy@));
                }
                kept.push(copy);
            }
            i += 1;
        }
        proof {
            assert(before.take(i as int) =~= before);
            assert(crate::exec::dap::breakpoints_at(path@, lines@.take(0)) =~= Seq::empty());
        }
        let mut confirmed: Vec<StoredBreakpoint> = Vec::new();
        let mut k: usize = 0;
        proof {
            assert(crate::exec::dap::breakpoint_views(confirmed@)
                =~= crate::exec::dap::breakpoints_at(path@, lines@.take(0)));
            assert(crate::exec::dap::breakpoint_views(kept@) =~= crate::exec::dap::replaced(
                before,
                path@,
                lines@.take(0),
            ));
        }
        while k < lines.len()
            invariant
                k <= lines@.len(),
                crate::exec::dap::breakpoint_views(confirmed@)
                    == crate::exec::dap::breakpoints_at(path@, lines@.take(k as int)),
                crate::exec::dap::breakpoint_views(kept@) == crate::exec::dap::replaced(
                    before,
                    path@,
                    lines@.take(k as int),
                ),
            decreases lines@.len() - k,
        {
            let ghost so_far = kept@;
            let ghost told = confirmed@;
            kept.push(StoredBreakpoint { path: path.to_owned(), line: lines[k] });
            confirmed.push(StoredBreakpoint { path: path.to_owned(), line: lines[k] });
            k += 1;
            proof {
                let set = crate::exec::dap::breakpoints_at(path@, lines@.take(k as int));
                assert(set =~= crate::exec::dap::breakpoints_at(path@, lines@.take(k - 1)).push(
                    PlaceView { path: path@, line: lines@[k - 1] },
                ));
                assert(crate::exec::dap::breakpoint_views(confirmed@)
                    =~= crate::exec::dap::breakpoint_views(told).push(
                    PlaceView { path: path@, line: lines@[k - 1] },
                ));
                assert(crate::exec::dap::breakpoint_views(kept@)
                    =~= crate::exec::dap::breakpoint_views(so_far).push(
                    PlaceView { path: path@, line: lines@[k - 1] },
                ));
                assert(crate::exec::dap::breakpoint_views(kept@) =~= crate::exec::dap::replaced(
                    before,
                    path@,
                    lines@.take(k as int),
                ));
            }
        }
        proof {
            assert(lines@.take(k as int) =~= lines@);
        }
        self.breakpoints = kept;
        confirmed
    }
}

fn stack_shown(stack: &Vec<u64>) -> (r: Vec<DapVariable>)
    ensures
        r@.map_values(|v: DapVariable| v@) == stack_variables(stack@),
{
    let mut out: Vec<DapVariable> = Vec::new();
    let mut i: usize = 0;
    while i < stack.len()
        invariant
            i <= stack@.len(),
            out@.len() == i,
            forall|k: int| 0 <= k < i ==> (#[trigger] out@[k])@ == stack_variables(stack@)[k],
        decreases stack@.len() - i,
    {
        let mut name = "[".to_owned();
        name.append(crate::text::render_usize(i).as_str());
        name.append("]");
        let value = crate::text::render_decimal(stack[i]);
        out.push(DapVariable { name, value, kind: "Felt".to_owned() });
        i += 1;
    }
    proof {
        assert(out@.map_values(|v: DapVariable| v@) =~= stack_variables(stack@));
    }
    out
}

fn memory_shown(memory: &Vec<(u32, u64)>) -> (r: Vec<DapVariable>)
    ensures
        r@.map_values(|v: DapVariable| v@) == memory_variables(memory@),
{
    let mut out: Vec<DapVariable> = Vec::new();
    let mut i: usize = 0;
    while i < memory.len()
        invariant
            i <= memory@.len(),
            out@.len() == i,
            forall|k: int| 0 <= k < i ==> (#[trigger] out@[k])@ == memory_variables(memory@)[k],
        decreases memory@.len() - i,
    {
        let (addr, element) = memory[i];
        let digits = crate::text::render(addr as u64, 16);
        let name = crate::text::concat("0x", crate::text::pad_left(digits.as_str(), '0', 8).as_str());
        let value = crate::text::render_decimal(element);
        out.push(DapVariable { name, value, kind: "Felt".to_owned() });
        i += 1;
    }
    proof {
        assert(out@.map_values(|v: DapVariable| v@) =~= memory_variables(memory@));
    }
    out
}

fn frame_of(asmop: &Option<AssemblyOp>, at: &Option<Place>, cycle: usize) -> (r: DapFrame)
    ensures
        r@ == frame_shown(
            crate::debug::op::asmop_view(*asmop),
            crate::exec::dap::place_view(*at),
            cycle,
        ),
{
    match asmop {
        Some(asmop) => {
            let (path, line): (String, i64) = match at {
                Some(at) => (at.path.clone(), at.line),
                None => ("<unknown>".to_owned(), 0),
            };
            let name = crate::text::part_behind_last(path.as_str(), '/');
            DapFrame {
                id: 0,
                name: asmop.context_name.clone(),
                source: Some(DapSource { name, path }),
                line,
                column: 0,
            }
        },
        None => DapFrame {
            id: 0,
            name: crate::text::concat("cycle ", crate::text::render_usize(cycle).as_str()),
            source: None,
            line: 0,
            column: 0,
        },
    }
}

fn scopes() -> (r: Vec<DapScope>)
    ensures
        r@.map_values(|s: DapScope| s@) == scopes_shown(),
{
    let mut out: Vec<DapScope> = Vec::new();
    out.push(
        DapScope {
            name: "Operand Stack".to_owned(),
            variables_reference: SCOPE_STACK,
            expensive: false,
        },
    );
    out.push(
        DapScope {
            name: "Memory".to_owned(),
            variables_reference: SCOPE_MEMORY,
            expensive: false,
        },
    );
    proof {
        assert(out@.map_values(|s: DapScope| s@) =~= scopes_shown());
    }
    out
}

fn answering(body: DapBody) -> (r: DapTurn)
    ensures
        r@ == answer(DapReply::Success(body)@),
{
    DapTurn { reply: DapReply::Success(body), event: None, then_do: Then::Poll }
}

fn going(body: DapBody, mode: StepMode) -> (r: DapTurn)
    ensures
        r@ == go(DapReply::Success(body)@, mode),
{
    DapTurn { reply: DapReply::Success(body), event: None, then_do: Then::Run(mode) }
}

fn refusing(message: &str) -> (r: DapTurn)
    ensures
        r@ == answer(ReplyView::Error(message@)),
{
    DapTurn { reply: DapReply::Error(message.to_owned()), event: None, then_do: Then::Poll }
}

impl DapSession {
    /// Deals with a request.
    pub fn handle(&mut self, command: &DapCommand, machine: &MachineState) -> (r: DapTurn)
        ensures
            r@ == old(self).turn(*command, *machine),
            (*command matches DapCommand::Evaluate(e) && e@ == state_query()) ==> (
            r.reply@ matches ReplyView::Evaluate { result, .. } && state_cycle(result) == Some(
                old(self).cycle as u64,
            )),
            match *command {
                DapCommand::SetBreakpoints { path, lines } => {
                    &&& crate::exec::dap::breakpoint_views(final(self).breakpoints@)
                        == crate::exec::dap::replaced(
                        crate::exec::dap::breakpoint_views(old(self).breakpoints@),
                        file_named(path),
                        lines_named(lines),
                    )
                    &&& *final(self) == (DapSession {
                        breakpoints: final(self).breakpoints,
                        ..*old(self)
                    })
                },
                _ => *final(self) == *old(self),
            },
    {
        match command {
            DapCommand::Initialize => DapTurn {
                reply: DapReply::Success(
                    DapBody::Initialize {
                        supports_configuration_done: true,
                        supports_stepping_granularity: true,
                    },
                ),
                event: Some(DapEvent::Initialized),
                then_do: Then::Poll,
            },
            DapCommand::Launch => answering(DapBody::Launch),
            DapCommand::ConfigurationDone => DapTurn {
                reply: DapReply::Success(DapBody::Ack),
                event: Some(
                    DapEvent::Stopped {
                        reason: StopReason::Entry,
                        description: Some("Paused at program entry".to_owned()),
                        thread_id: MAIN_THREAD,
                    },
                ),
                then_do: Then::Poll,
            },
            DapCommand::Disconnect => DapTurn {
                reply: DapReply::Success(DapBody::Ack),
                event: None,
                then_do: Then::End,
            },
            DapCommand::Continue => going(
                DapBody::Continue { all_threads_continued: true },
                StepMode::UntilBreakpoint,
            ),
            DapCommand::Next => going(DapBody::Next, StepMode::Over),
            DapCommand::StepIn => going(DapBody::StepIn, StepMode::One),
            DapCommand::StepOut => going(DapBody::StepOut, StepMode::Out),
            DapCommand::Threads => answering(
                DapBody::Threads { id: MAIN_THREAD, name: "main".to_owned() },
            ),
            DapCommand::StackTrace => answering(
                DapBody::StackTrace {
                    frame: frame_of(&self.current_asmop, &machine.at, self.cycle),
                    total_frames: 1,
                },
            ),
            DapCommand::Scopes => answering(DapBody::Scopes(scopes())),
            DapCommand::Variables(scope) => {
                let variables = if *scope == SCOPE_STACK {
                    stack_shown(&machine.stack)
                } else if *scope == SCOPE_MEMORY {
                    memory_shown(&machine.memory)
                } else {
                    Vec::new()
                };
                proof {
                    assert(variables@.map_values(|v: DapVariable| v@) =~= variables_shown(
                        *scope,
                        *machine,
                    ));
                }
                answering(DapBody::Variables(variables))
            },
            DapCommand::SetBreakpoints { path, lines } => {
                let none: Vec<i64> = Vec::new();
                let no_name = String::new();
                let file = match path {
                    Some(p) => p,
                    None => &no_name,
                };
                let set = match lines {
                    Some(l) => l,
                    None => &none,
                };
                proof {
                    assert(file@ =~= file_named(*path));
                    assert(set@ =~= lines_named(*lines));
                }
                answering(DapBody::SetBreakpoints(self.set_breakpoints(file.as_str(), set)))
            },
            DapCommand::Evaluate(expression) => if crate::text::same(
                expression.as_str(),
                "__miden_state",
            ) {
                let result = state_json(self.cycle, self.resume_ctx.is_none());
                proof {
                    the_cycle_reads_back(result@, self.cycle, self.resume_ctx is None);
                }
                answering(DapBody::Evaluate { result, kind: "json".to_owned() })
            } else {
                refusing("Unsupported expression")
            },
            DapCommand::Other => refusing("Unsupported command"),
        }
    }

    /// What the client is told once the program has run for a while.
    pub open spec fn news(self, mode: StepMode, result: StepResult) -> EventView {
        match result {
            StepResult::Terminated => EventView::Terminated,
            StepResult::Error(_) => EventView::Terminated,
            _ => if mode == StepMode::UntilBreakpoint {
                EventView::Stopped {
                    reason: StopReason::Breakpoint,
                    description: Some("Hit breakpoint"@),
                    thread_id: MAIN_THREAD,
                }
            } else if self.resume_ctx is None {
                EventView::Terminated
            } else {
                EventView::Stopped {
                    reason: StopReason::Step,
                    description: None,
                    thread_id: MAIN_THREAD,
                }
            },
        }
    }

    /// Ends a stretch of cycles. Returns what the client is told; where the program failed, the
    /// session ends with the failure.
    pub fn finish_run(&self, mode: StepMode, result: StepResult) -> (r: (
        DapEvent,
        Option<StepError>,
    ))
        ensures
            r.0@ == self.news(mode, result),
            r.1 == match result {
                StepResult::Error(e) => Some(e),
                _ => None,
            },
    {
        match result {
            StepResult::Terminated => (DapEvent::Terminated, None),
            StepResult::Error(e) => (DapEvent::Terminated, Some(e)),
            _ => if mode == StepMode::UntilBreakpoint {
                (
                    DapEvent::Stopped {
                        reason: StopReason::Breakpoint,
                        description: Some("Hit breakpoint".to_owned()),
                        thread_id: MAIN_THREAD,
                    },
                    None,
                )
            } else if self.resume_ctx.is_none() {
                (DapEvent::Terminated, None)
            } else {
                (
                    DapEvent::Stopped {
                        reason: StopReason::Step,
                        description: None,
                        thread_id: MAIN_THREAD,
                    },
                    None,
                )
            },
        }
    }
}

// ---------------------------------------------------------------------------------------------
// What holds of all replies
// ---------------------------------------------------------------------------------------------

/// Only four requests let the program run: to continue runs it to a breakpoint, to go to the next
/// instruction runs it over the current one, to step in runs it for one cycle, and to step out runs
/// it out of the current call. Only to disconnect ends the session. Behind any other request the
/// server waits for the next one.
pub proof fn requests_run_the_program_as_they_say(
    session: DapSession,
    command: DapCommand,
    machine: MachineState,
)
    ensures
        ({
            let next = session.turn(command, machine).then_do;
            &&& next == Then::Run(StepMode::UntilBreakpoint) <==> command is Continue
            &&& next == Then::Run(StepMode::Over) <==> command is Next
            &&& next == Then::Run(StepMode::One) <==> command is StepIn
            &&& next == Then::Run(StepMode::Out) <==> command is StepOut
            &&& next == Then::End <==> command is Disconnect
            &&& next == Then::Poll <==> !(command is Continue || command is Next
                || command is StepIn || command is StepOut || command is Disconnect)
        }),
{
}

/// The client is told of its own accord that the server is ready once it has asked for that, and that
/// the program waits at its entry once all is configured; no other request brings it any news.
pub proof fn news_come_at_the_start(
    session: DapSession,
    command: DapCommand,
    machine: MachineState,
)
    ensures
        match session.turn(command, machine).event {
            Some(EventView::Initialized) => command is Initialize,
            Some(EventView::Stopped { reason, thread_id, .. }) => command is ConfigurationDone
                && reason == StopReason::Entry && thread_id == 1,
            Some(EventView::Terminated) => false,
            None => !(command is Initialize || command is ConfigurationDone),
        },
{
}

/// A request is answered by a reply of its own kind. What is not supported is refused: any request
/// that is not known, and any expression but the one for the state.
pub proof fn requests_are_answered_in_kind(
    session: DapSession,
    command: DapCommand,
    machine: MachineState,
)
    ensures
        match session.turn(command, machine).reply {
            ReplyView::Initialize { .. } => command is Initialize,
            ReplyView::Launch => command is Launch,
            ReplyView::Ack => command is ConfigurationDone || command is Disconnect,
            ReplyView::Continue { all_threads_continued } => command is Continue
                && all_threads_continued,
            ReplyView::Next => command is Next,
            ReplyView::StepIn => command is StepIn,
            ReplyView::StepOut => command is StepOut,
            ReplyView::Threads { id, .. } => command is Threads && id == 1,
            ReplyView::StackTrace { frame, total_frames } => {
                &&& command is StackTrace
                &&& total_frames == 1
                &&& frame == frame_shown(
                    crate::debug::op::asmop_view(session.current_asmop),
                    crate::exec::dap::place_view(machine.at),
                    session.cycle,
                )
            },
            ReplyView::Scopes(_) => command is Scopes,
            ReplyView::Variables(shown) => command matches DapCommand::Variables(scope) && shown
                == variables_shown(scope, machine),
            ReplyView::SetBreakpoints(set) => command matches DapCommand::SetBreakpoints {
                path,
                lines,
            } && set.len() == (match lines {
                Some(lines) => lines@.len(),
                None => 0,
            }) && forall|i: int|
                0 <= i < set.len() ==> (#[trigger] set[i]).line == lines->Some_0@[i] && (
                path matches Some(path) ==> set[i].path == path@) && (path is None
                    ==> set[i].path.len() == 0),
            ReplyView::Evaluate { result, .. } => command matches DapCommand::Evaluate(e) && e@
                == "__miden_state"@ && result == crate::exec::json::json_text(
                state_value(session.cycle, session.resume_ctx is None),
            ),
            ReplyView::Error(_) => command is Other || (command matches DapCommand::Evaluate(e)
                && e@ != "__miden_state"@),
        },
{
}

/// The scopes that the client is told of are the operand stack and the memory, and each of them has
/// the variables that its name says; no other scope has any.
pub proof fn scopes_hold_what_they_say(machine: MachineState, scope: i64)
    ensures
        scopes_shown().len() == 2,
        scopes_shown()[0].name == "Operand Stack"@,
        scopes_shown()[1].name == "Memory"@,
        !scopes_shown()[0].expensive && !scopes_shown()[1].expensive,
        variables_shown(scopes_shown()[0].variables_reference, machine).len()
            == machine.stack@.len(),
        variables_shown(scopes_shown()[0].variables_reference, machine) == stack_variables(
            machine.stack@,
        ),
        variables_shown(scopes_shown()[1].variables_reference, machine) == memory_variables(
            machine.memory@,
        ),
        scope != scopes_shown()[0].variables_reference && scope
            != scopes_shown()[1].variables_reference ==> variables_shown(scope, machine).len() == 0,
{
}

/// An element of the operand stack is shown by its position in square brackets, the top at zero, with
/// its value in decimal.
pub proof fn a_stack_element_is_shown(stack: Seq<u64>, i: int)
    requires
        0 <= i < stack.len(),
    ensures
        ({
            let shown = stack_variables(stack)[i];
            &&& stack_variables(stack).len() == stack.len()
            &&& shown.name.len() > 2
            &&& shown.name[0] == '['
            &&& shown.name.last() == ']'
            &&& crate::text::shows_number(shown.name.subrange(1, shown.name.len() - 1), i)
            &&& crate::text::shows_number(shown.value, stack[i] as int)
            &&& shown.kind == "Felt"@
        }),
{
    reveal_strlit("[");
    reveal_strlit("]");
    let shown = stack_variables(stack)[i];
    crate::text::a_number_is_what_its_digits_stand_for(i as nat, 10);
    crate::text::a_number_is_what_its_digits_stand_for(stack[i] as nat, 10);
    assert(shown.name.subrange(1, shown.name.len() - 1) =~= crate::text::decimal(i as nat));
}

/// An element of memory is shown by its address, in eight hexadecimal digits behind `0x`, with its
/// value in decimal.
pub proof fn a_memory_element_is_shown(memory: Seq<(u32, u64)>, i: int)
    requires
        0 <= i < memory.len(),
    ensures
        ({
            let shown = memory_variables(memory)[i];
            &&& memory_variables(memory).len() == memory.len()
            &&& shown.name.len() == 10
            &&& shown.name[0] == '0'
            &&& shown.name[1] == 'x'
            &&& crate::text::place_value(shown.name.skip(2), 16) == memory[i].0
            &&& crate::text::shows_number(shown.value, memory[i].1 as int)
            &&& shown.kind == "Felt"@
        }),
{
    reveal_strlit("0x");
    let shown = memory_variables(memory)[i];
    let addr = memory[i].0;
    let digits = crate::text::digits(addr as nat, 16);
    let padded = crate::text::padded_left(digits, '0', 8);
    crate::text::a_number_is_what_its_digits_stand_for(addr as nat, 16);
    crate::text::a_number_is_what_its_digits_stand_for(memory[i].1 as nat, 10);
    crate::text::a_padded_text_ends_with_itself(digits, '0', 8);
    eight_digits(addr as nat);
    assert(shown.name.skip(2) =~= padded);
    zeros_make_no_difference(padded, padded.len() - digits.len(), 16);
    assert(padded.skip(padded.len() - digits.len()) =~= digits) by {
        assert(padded.subrange(padded.len() - digits.len(), padded.len() as int) =~= digits);
    }
}

proof fn eight_digits(n: nat)
    requires
        n < 0x1_0000_0000,
    ensures
        crate::text::digits(n, 16).len() <= 8,
{
    reveal_with_fuel(crate::text::digits, 9);
}

proof fn zeros_make_no_difference(s: Seq<char>, k: int, radix: nat)
    requires
        0 <= k <= s.len(),
        forall|i: int| 0 <= i < k ==> #[trigger] s[i] == '0',
    ensures
        crate::text::place_value(s, radix) == crate::text::place_value(s.skip(k), radix),
    decreases s.len(),
{
    if s.len() > 0 {
        let front = s.drop_last();
        if k == s.len() {
            zeros_make_no_difference(front, k - 1, radix);
            assert(front.skip(k - 1) =~= Seq::<char>::empty());
            assert(s.skip(k) =~= Seq::<char>::empty());
            assert(s.last() == '0');
            assert(0 * radix == 0) by (nonlinear_arith);
        } else {
            zeros_make_no_difference(front, k, radix);
            assert(s.skip(k).drop_last() =~= front.skip(k));
        }
    } else {
        assert(s.skip(k) =~= s);
    }
}

/// The frame that the client is told of is named after the procedure of the instruction that comes
/// next, and stands where that instruction does, in the file behind the last slash of its path; where
/// no instruction is known, it is named after the cycle.
pub proof fn the_frame_is_that_of_the_next_instruction(
    asmop: Option<AssemblyOpView>,
    at: Option<PlaceView>,
    cycle: usize,
)
    ensures
        ({
            let frame = frame_shown(asmop, at, cycle);
            match asmop {
                Some(asmop) => {
                    &&& frame.name == asmop.context_name
                    &&& at matches Some(place) ==> frame.line == place.line && (
                    frame.source matches Some((name, path)) && path == place.path
                        && name.is_suffix_of(path) && !name.contains('/') && (name == path
                        || path[path.len() - name.len() - 1] == '/'))
                    &&& at is None ==> frame.line == 0 && (frame.source matches Some((_, path))
                        && path == "<unknown>"@)
                },
                None => {
                    &&& frame.source is None
                    &&& frame.line == 0
                    &&& frame.name.len() > 6
                    &&& crate::text::shows_number(frame.name.skip(6), cycle as int)
                },
            }
        }),
{
    match asmop {
        Some(_) => {
            if let Some(place) = at {
                crate::text::the_last_part_is_behind_the_last_separator(place.path, '/');
            }
        },
        None => {
            reveal_strlit("cycle ");
            crate::text::a_number_is_what_its_digits_stand_for(cycle as nat, 10);
            assert(frame_shown(asmop, at, cycle).name.skip(6) =~= crate::text::decimal(
                cycle as nat,
            ));
        },
    }
}

/// The state that the client is told of says how many cycles the program has run, and whether it has
/// come to its end.
pub proof fn the_state_says_cycle_and_end(cycle: usize, stopped: bool)
    ensures
        ({
            let state = state_value(cycle, stopped);
            &&& state matches JsonView::Object(members)
            &&& members.dom() == set!["cycle"@, "stopped"@]
            &&& members["cycle"@] matches JsonView::Number(n)
            &&& crate::text::shows_number(n, cycle as int)
            &&& members["stopped"@] == JsonView::Bool(stopped)
        }),
{
    reveal_strlit("cycle");
    reveal_strlit("stopped");
    assert("cycle"@.len() != "stopped"@.len());
    crate::text::a_number_is_what_its_digits_stand_for(cycle as nat, 10);
    let members = state_value(cycle, stopped)->Object_0;
    assert(members.dom() =~= set!["cycle"@, "stopped"@]);
}

/// Once the program has run for a while, the client is told that it has ended, where it has, or has
/// failed; else that it has stopped, at a breakpoint where it was to run to one, and behind a step
/// otherwise.
pub proof fn the_client_is_told_why_the_program_stopped(
    session: DapSession,
    mode: StepMode,
    result: StepResult,
)
    ensures
        result is Terminated || result is Error ==> session.news(mode, result) is Terminated,
        result is Breakpoint && mode == StepMode::UntilBreakpoint ==> (session.news(
            mode,
            result,
        ) matches EventView::Stopped { reason, thread_id, .. } && reason == StopReason::Breakpoint
            && thread_id == 1),
        result is Stepped && mode != StepMode::UntilBreakpoint && session.resume_ctx is Some ==> (
        session.news(mode, result) matches EventView::Stopped { reason, thread_id, .. } && reason
            == StopReason::Step && thread_id == 1),
        result is Stepped && mode != StepMode::UntilBreakpoint && session.resume_ctx is None
            ==> session.news(mode, result) is Terminated,
{
}

/// Replies say all that they hold.
pub proof fn replies_say_what_they_hold(
    frame: DapFrame,
    scope: DapScope,
    variable: DapVariable,
    variables: Vec<DapVariable>,
    i: int,
)
    ensures
        frame@.id == frame.id && frame@.name == frame.name@ && frame@.line == frame.line
            && frame@.column == frame.column,
        match (frame.source, frame@.source) {
            (Some(source), Some((name, path))) => name == source.name@ && path == source.path@,
            (None, None) => true,
            _ => false,
        },
        scope@.name == scope.name@ && scope@.variables_reference == scope.variables_reference
            && scope@.expensive == scope.expensive,
        variable@.name == variable.name@ && variable@.value == variable.value@ && variable@.kind
            == variable.kind@,
        0 <= i < variables@.len() ==> (DapReply::Success(
            DapBody::Variables(variables),
        )@ matches ReplyView::Variables(said) && said.len() == variables@.len() && said[i]
            == variables@[i]@),
{
}

} // verus!
