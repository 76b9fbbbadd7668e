//! A program that a debug client steers: where it stops, and what the client is answered.
use miden_core::advice::AdviceInputs;
use miden_core::program::Program;
use miden_processor::{FastProcessor, ResumeContext};
use vstd::prelude::*;
use vstd::string::*;

use crate::debug::op::{AssemblyOp, AssemblyOpView, TraceEvent};
use crate::exec::advice::Record;
use crate::exec::options::{RunOptions, StackInputs};
use crate::exec::state::StepError;
use crate::exec::trace::StackOutputs;

verus! {

// ---------------------------------------------------------------------------------------------
// Configuration
// ---------------------------------------------------------------------------------------------

/// Configuration of the debug server.
#[derive(Debug)]
pub struct DapConfig {
    /// The address to listen on, e.g. "127.0.0.1:4711".
    pub listen_addr: String,
}

impl Clone for DapConfig {
    fn clone(&self) -> (r: Self)
        ensures
            r == *self,
    {
        DapConfig { listen_addr: self.listen_addr.clone() }
    }
}

impl Default for DapConfig {
    fn default() -> (r: Self)
        ensures
            r.listen_addr@ == "127.0.0.1:4711"@,
    {
        DapConfig { listen_addr: "127.0.0.1:4711".to_owned() }
    }
}

impl DapConfig {
    /// Sets the configuration that executors are made with. Only the first call takes effect;
    /// subsequent calls are ignored.
    pub fn set_global(slot: &mut Option<DapConfig>, config: DapConfig)
        ensures
            *final(slot) == match *old(slot) {
                Some(first) => Some(first),
                None => Some(config),
            },
    {
        if slot.is_none() {
            *slot = Some(config);
        }
    }
}

/// Makes executors that serve a debug client.
#[derive(Debug)]
pub struct DapExecutorFactory;

/// An executor that runs a program as a debug client says.
pub struct DapExecutor {
    pub stack_inputs: StackInputs,
    pub advice_inputs: AdviceInputs,
    pub options: RunOptions,
    pub config: DapConfig,
}

impl DapExecutorFactory {
    /// An executor with the configuration that was set, or the usual one.
    pub fn create_executor(
        stack_inputs: StackInputs,
        advice_inputs: AdviceInputs,
        options: RunOptions,
        global: &Option<DapConfig>,
    ) -> (r: DapExecutor)
        ensures
            r.stack_inputs == stack_inputs,
            r.advice_inputs == advice_inputs,
            r.options == options,
            match *global {
                Some(config) => r.config == config,
                None => r.config.listen_addr@ == "127.0.0.1:4711"@,
            },
    {
        let config = match global {
            Some(config) => config.clone(),
            None => DapConfig::default(),
        };
        DapExecutor { stack_inputs, advice_inputs, options, config }
    }
}

impl DapExecutor {
    /// Starts the program, with debugging and tracing on.
    pub fn start(self, program: &Program) -> (r: Result<(FastProcessor, ResumeContext), String>)
        requires
            self.options.wf(),
            StackInputs::valid(self.stack_inputs.elements@),
        ensures
            crate::exec::executor::is_outcome(
                r,
                crate::exec::executor::started(
                    self.stack_inputs.elements@,
                    crate::exec::snapshot::advice_of(self.advice_inputs),
                    RunOptions { enable_tracing: true, enable_debugging: true, ..self.options },
                    *program,
                ),
            ),
            r matches Ok((processor, _)) ==> crate::exec::executor::is_fresh(
                processor,
                self.stack_inputs.elements@,
            ),
    {
        let options = RunOptions { enable_tracing: true, enable_debugging: true, ..self.options };
        let limits = crate::exec::executor::limits(options);
        crate::exec::executor::start(&self.stack_inputs, self.advice_inputs, limits, program)
    }
}

// ---------------------------------------------------------------------------------------------
// Breakpoints
// ---------------------------------------------------------------------------------------------

/// A line of a source file at which the program is to stop.
#[derive(Debug)]
pub struct StoredBreakpoint {
    /// The source file, as the client calls it.
    pub path: String,
    /// The line, counted from one.
    pub line: i64,
}

/// A line of a source file.
pub struct PlaceView {
    pub path: Seq<char>,
    pub line: i64,
}

impl View for StoredBreakpoint {
    type V = PlaceView;

    open spec fn view(&self) -> PlaceView {
        PlaceView { path: self.path@, line: self.line }
    }
}

/// A place in the sources.
#[derive(Debug)]
pub struct Place {
    pub path: String,
    /// The line, counted from one.
    pub line: i64,
}

impl View for Place {
    type V = PlaceView;

    open spec fn view(&self) -> PlaceView {
        PlaceView { path: self.path@, line: self.line }
    }
}

/// The view of an optional place.
pub open spec fn place_view(place: Option<Place>) -> Option<PlaceView> {
    match place {
        Some(p) => Some(p@),
        None => None,
    }
}

/// The source that a host finds behind a location, and the byte of it that the location starts at.
#[derive(Debug)]
pub struct FoundSource {
    pub uri: String,
    pub content: String,
    pub start: u32,
}

impl FoundSource {
    /// The source is short enough for its positions to be counted, and the location starts inside.
    pub open spec fn fits(&self) -> bool {
        &&& crate::debug::source::byte_len(self.content@) < u32::MAX
        &&& crate::debug::source::in_bounds(self.content@, self.start as int)
    }

    /// Whether the source is short enough, and the location starts inside.
    pub fn is_sound(&self) -> (r: bool)
        ensures
            r == self.fits(),
    {
        let length: usize = self.content.as_str().as_bytes().len();
        length < u32::MAX as usize && crate::debug::source::position(
            self.content.as_str(),
            self.start,
        ).is_some()
    }
}

/// Where an instruction stands in the sources, by what the host finds behind its location; nowhere
/// where it has no location, or the host finds no source.
pub fn resolve_asmop_location(asmop: &AssemblyOp, found: Option<FoundSource>) -> (r: Option<Place>)
    requires
        found matches Some(source) ==> source.fits(),
    ensures
        place_view(r) == match (asmop.location, found) {
            (Some(_), Some(source)) => Some(
                PlaceView {
                    path: source.uri@,
                    line: crate::debug::source::position_of(
                        source.content@,
                        source.start as int,
                    )->Some_0.0 as i64,
                },
            ),
            _ => None,
        },
{
    match (&asmop.location, found) {
        (Some(_), Some(source)) => match crate::debug::source::position(
            source.content.as_str(),
            source.start,
        ) {
            Some((line, _)) => Some(Place { path: source.uri, line: line as i64 }),
            None => None,
        },
        _ => None,
    }
}

/// The views of breakpoints.
pub open spec fn breakpoint_views(breakpoints: Seq<StoredBreakpoint>) -> Seq<PlaceView> {
    breakpoints.map_values(|b: StoredBreakpoint| b@)
}

impl PlaceView {
    /// Whether a program at the place `at` is at this breakpoint: the lines are the same, and one
    /// of the two paths ends with the other.
    pub open spec fn is_hit_at(self, at: PlaceView) -> bool {
        &&& self.line == at.line
        &&& crate::text::has_suffix(at.path, self.path) || crate::text::has_suffix(
            self.path,
            at.path,
        )
    }
}

/// Whether one of the breakpoints is hit at a place.
pub open spec fn hits(breakpoints: Seq<PlaceView>, at: PlaceView) -> bool {
    exists|i: int| 0 <= i < breakpoints.len() && (#[trigger] breakpoints[i]).is_hit_at(at)
}

/// The breakpoints of all other files, in their order.
pub open spec fn elsewhere(breakpoints: Seq<PlaceView>, path: Seq<char>) -> Seq<PlaceView> {
    breakpoints.filter(|b: PlaceView| b.path != path)
}

/// Breakpoints at these lines of one file, in their order.
pub open spec fn breakpoints_at(path: Seq<char>, lines: Seq<i64>) -> Seq<PlaceView> {
    Seq::new(lines.len(), |i: int| PlaceView { path, line: lines[i] })
}

/// The breakpoints after those of one file were replaced.
pub open spec fn replaced(
    breakpoints: Seq<PlaceView>,
    path: Seq<char>,
    lines: Seq<i64>,
) -> Seq<PlaceView> {
    elsewhere(breakpoints, path) + breakpoints_at(path, lines)
}

/// Setting the breakpoints of one file leaves those of all other files as they are.
pub proof fn other_files_keep_their_breakpoints(
    breakpoints: Seq<PlaceView>,
    path: Seq<char>,
    lines: Seq<i64>,
)
    ensures
        elsewhere(replaced(breakpoints, path, lines), path) == elsewhere(breakpoints, path),
{
    broadcast use vstd::seq_lib::group_filter_ensures;

    let other = |b: PlaceView| b.path != path;
    let kept = breakpoints.filter(other);
    let added = breakpoints_at(path, lines);
    Seq::filter_distributes_over_add(kept, added, other);
    all_stay(kept, other);
    none_stays(added, other);
}

/// Once the breakpoints of a file were set, the file has a breakpoint at each of these lines and at
/// no other; and a breakpoint of another file is there just where it was.
pub proof fn a_file_has_the_breakpoints_that_were_set(
    breakpoints: Seq<PlaceView>,
    path: Seq<char>,
    lines: Seq<i64>,
    b: PlaceView,
)
    ensures
        replaced(breakpoints, path, lines).contains(b) <==> if b.path == path {
            lines.contains(b.line)
        } else {
            breakpoints.contains(b)
        },
{
    broadcast use vstd::seq_lib::group_filter_ensures;

    let other = |b: PlaceView| b.path != path;
    let kept = elsewhere(breakpoints, path);
    let added = breakpoints_at(path, lines);
    let all = replaced(breakpoints, path, lines);
    if all.contains(b) {
        let i = choose|i: int| 0 <= i < all.len() && all[i] == b;
        if i < kept.len() {
            stays_of(breakpoints, other, i);
        } else {
            assert(added[i - kept.len()] == b);
            assert(lines[i - kept.len()] == b.line);
        }
    }
    if b.path == path && lines.contains(b.line) {
        let i = choose|i: int| 0 <= i < lines.len() && lines[i] == b.line;
        assert(added[i] == b);
        assert(all[kept.len() + i] == b);
    }
    if b.path != path && breakpoints.contains(b) {
        let k = choose|k: int| 0 <= k < breakpoints.len() && breakpoints[k] == b;
        assert(other(breakpoints[k]));
        assert(kept.contains(b));
        let i = choose|i: int| 0 <= i < kept.len() && kept[i] == b;
        assert(all[i] == b);
    }
}

/// Only the breakpoints set last count: what a file had before makes no difference.
pub proof fn the_last_breakpoints_count(
    breakpoints: Seq<PlaceView>,
    path: Seq<char>,
    first: Seq<i64>,
    last: Seq<i64>,
)
    ensures
        replaced(replaced(breakpoints, path, first), path, last) == replaced(
            breakpoints,
            path,
            last,
        ),
{
    other_files_keep_their_breakpoints(breakpoints, path, first);
}

proof fn all_stay<A>(s: Seq<A>, keep: spec_fn(A) -> bool)
    requires
        forall|i: int| 0 <= i < s.len() ==> keep(#[trigger] s[i]),
    ensures
        s.filter(keep) == s,
    decreases s.len(),
{
    reveal(Seq::filter);
    if s.len() > 0 {
        assert forall|i: int| 0 <= i < s.drop_last().len() implies keep(
            #[trigger] s.drop_last()[i],
        ) by {
            assert(s.drop_last()[i] == s[i]);
        }
        all_stay(s.drop_last(), keep);
        assert(s.drop_last().push(s.last()) =~= s);
    }
}

proof fn stays_of<A>(s: Seq<A>, keep: spec_fn(A) -> bool, i: int)
    requires
        0 <= i < s.filter(keep).len(),
    ensures
        keep(s.filter(keep)[i]),
        s.contains(s.filter(keep)[i]),
    decreases s.len(),
{
    reveal(Seq::filter);
    if s.len() > 0 {
        let rest = s.drop_last();
        if i < rest.filter(keep).len() {
            stays_of(rest, keep, i);
            let k = choose|k: int| 0 <= k < rest.len() && rest[k] == rest.filter(keep)[i];
            assert(s[k] == s.filter(keep)[i]);
        } else {
            assert(s[s.len() - 1] == s.filter(keep)[i]);
        }
    }
}

proof fn none_stays<A>(s: Seq<A>, keep: spec_fn(A) -> bool)
    requires
        forall|i: int| 0 <= i < s.len() ==> !keep(#[trigger] s[i]),
    ensures
        s.filter(keep) == Seq::<A>::empty(),
    decreases s.len(),
{
    reveal(Seq::filter);
    if s.len() > 0 {
        assert forall|i: int| 0 <= i < s.drop_last().len() implies !keep(
            #[trigger] s.drop_last()[i],
        ) by {
            assert(s.drop_last()[i] == s[i]);
        }
        none_stays(s.drop_last(), keep);
    }
}

/// Whether one of the breakpoints is hit at a place.
pub fn is_hit(breakpoints: &Vec<StoredBreakpoint>, at: &Place) -> (r: bool)
    ensures
        r == hits(breakpoint_views(breakpoints@), at@),
{
    let mut i: usize = 0;
    while i < breakpoints.len()
        invariant
            i <= breakpoints@.len(),
            forall|k: int|
                0 <= k < i ==> !(#[trigger] breakpoint_views(breakpoints@)[k]).is_hit_at(at@),
        decreases breakpoints@.len() - i,
    {
        let b = &breakpoints[i];
        proof {
            assert(breakpoint_views(breakpoints@)[i as int] == b@);
        }
        if b.line == at.line && (crate::text::ends_with(at.path.as_str(), b.path.as_str())
            || crate::text::ends_with(b.path.as_str(), at.path.as_str())) {
            return true;
        }
        i += 1;
    }
    false
}

// ---------------------------------------------------------------------------------------------
// Stepping
// ---------------------------------------------------------------------------------------------

/// How far the program is to go.
#[derive(Debug, Clone, Copy, PartialEq, Eq, Structural)]
pub enum StepMode {
    /// One cycle.
    One,
    /// Until another instruction is reached.
    Over,
    /// Until calls are nested less deep. Outside of all calls there is nothing to step out of: the
    /// program runs to its end.
    Out,
    /// Until a breakpoint is hit.
    UntilBreakpoint,
}

/// A stretch of cycles that a client asked for.
#[derive(Debug)]
pub struct StepRun {
    pub mode: StepMode,
    /// The instruction the program was at.
    pub original_asmop: Option<AssemblyOp>,
    /// How deep calls were nested.
    pub start_depth: usize,
}

/// What a [`StepRun`] says.
pub struct RunView {
    pub mode: StepMode,
    pub original_asmop: Option<AssemblyOpView>,
    pub start_depth: usize,
}

impl View for StepRun {
    type V = RunView;

    open spec fn view(&self) -> RunView {
        RunView {
            mode: self.mode,
            original_asmop: crate::debug::op::asmop_view(self.original_asmop),
            start_depth: self.start_depth,
        }
    }
}

/// What came of one cycle.
pub enum StepSeen {
    /// The program goes on.
    Running {
        resume_ctx: ResumeContext,
        /// The instruction that comes next.
        asmop: Option<AssemblyOp>,
        /// Where that instruction stands in the sources.
        at: Option<Place>,
    },
    /// The program has come to its end.
    Completed,
    /// The program failed.
    Failed(StepError),
}

/// What a [`StepSeen`] says, with the depth of calls behind the cycle.
pub enum SeenView {
    Running { asmop: Option<AssemblyOpView>, at: Option<PlaceView>, depth: usize },
    Completed,
    Failed(StepError),
}

impl StepSeen {
    /// What was seen, with the depth of calls behind the cycle.
    pub open spec fn at_depth(&self, depth: usize) -> SeenView {
        match self {
            StepSeen::Running { asmop, at, .. } => SeenView::Running {
                asmop: crate::debug::op::asmop_view(*asmop),
                at: place_view(*at),
                depth,
            },
            StepSeen::Completed => SeenView::Completed,
            StepSeen::Failed(e) => SeenView::Failed(*e),
        }
    }
}

/// How a stretch of cycles ended.
#[derive(Debug)]
pub enum StepResult {
    /// The program went as far as it was to go.
    Stepped,
    /// The program hit a breakpoint at this line.
    Breakpoint(i64),
    /// The program has come to its end.
    Terminated,
    /// The program failed.
    Error(StepError),
}

impl RunView {
    /// Whether the stretch ends with a cycle, and how.
    pub open spec fn ends_with(self, breakpoints: Seq<PlaceView>, seen: SeenView) -> Option<
        StepResult,
    > {
        match seen {
            SeenView::Completed => Some(StepResult::Terminated),
            SeenView::Failed(e) => Some(StepResult::Error(e)),
            SeenView::Running { asmop, at, depth } => {
                let arrived = match self.mode {
                    StepMode::One => true,
                    StepMode::Over => asmop != self.original_asmop,
                    StepMode::Out => depth < self.start_depth,
                    StepMode::UntilBreakpoint => false,
                };
                match at {
                    Some(at) if self.mode == StepMode::UntilBreakpoint && asmop is Some && hits(
                        breakpoints,
                        at,
                    ) => Some(StepResult::Breakpoint(at.line)),
                    _ => if arrived {
                        Some(StepResult::Stepped)
                    } else {
                        None
                    },
                }
            },
        }
    }

    /// How many cycles the stretch takes, of those that would follow.
    pub open spec fn length(self, breakpoints: Seq<PlaceView>, seen: Seq<SeenView>) -> nat
        decreases seen.len(),
    {
        if seen.len() == 0 {
            0
        } else if self.ends_with(breakpoints, seen[0]) is Some {
            1
        } else {
            1 + self.length(breakpoints, seen.skip(1))
        }
    }
}

/// A stretch goes no further than it was to: none of its cycles but the last one ends it. So a
/// program that continues passes no breakpoint, one that steps over an instruction stays at it, and
/// one that steps out of a procedure stays inside of it.
pub proof fn a_stretch_ends_at_once(run: RunView, breakpoints: Seq<PlaceView>, seen: Seq<SeenView>)
    ensures
        run.length(breakpoints, seen) <= seen.len(),
        forall|i: int|
            0 <= i < run.length(breakpoints, seen) - 1 ==> run.ends_with(
                breakpoints,
                #[trigger] seen[i],
            ) is None,
        run.length(breakpoints, seen) < seen.len() ==> run.length(breakpoints, seen) > 0
            && run.ends_with(breakpoints, seen[run.length(breakpoints, seen) - 1]) is Some,
    decreases seen.len(),
{
    if seen.len() > 0 && run.ends_with(breakpoints, seen[0]) is None {
        a_stretch_ends_at_once(run, breakpoints, seen.skip(1));
        assert forall|i: int| 0 <= i < run.length(breakpoints, seen) - 1 implies run.ends_with(
            breakpoints,
            #[trigger] seen[i],
        ) is None by {
            if i > 0 {
                assert(seen[i] == seen.skip(1)[i - 1]);
            }
        }
    }
}

/// Stepping over an instruction goes on as long as that instruction goes on, and ends where another
/// one comes next, or none that is known; breakpoints make no difference to it.
pub proof fn stepping_over_ends_with_the_instruction(
    run: RunView,
    breakpoints: Seq<PlaceView>,
    asmop: Option<AssemblyOpView>,
    at: Option<PlaceView>,
    depth: usize,
)
    requires
        run.mode == StepMode::Over,
    ensures
        ({
            let end = run.ends_with(breakpoints, SeenView::Running { asmop, at, depth });
            &&& asmop == run.original_asmop ==> end is None
            &&& asmop != run.original_asmop ==> end == Some(StepResult::Stepped)
        }),
{
}

/// A stretch of cycles that steps over an instruction is at that instruction before its last cycle,
/// and at another one behind it, unless the program ended.
pub proof fn a_step_over_is_the_cycles_of_one_instruction(
    run: RunView,
    breakpoints: Seq<PlaceView>,
    seen: Seq<SeenView>,
)
    requires
        run.mode == StepMode::Over,
        run.length(breakpoints, seen) < seen.len(),
    ensures
        ({
            let n = run.length(breakpoints, seen);
            &&& n > 0
            &&& forall|i: int|
                0 <= i < n - 1 ==> match #[trigger] seen[i] {
                    SeenView::Running { asmop, .. } => asmop == run.original_asmop,
                    _ => false,
                }
            &&& match seen[n - 1] {
                SeenView::Running { asmop, .. } => asmop != run.original_asmop,
                _ => true,
            }
        }),
{
    a_stretch_ends_at_once(run, breakpoints, seen);
}

/// Stepping in takes one cycle, wherever the program is then.
pub proof fn stepping_in_takes_one_cycle(
    run: RunView,
    breakpoints: Seq<PlaceView>,
    asmop: Option<AssemblyOpView>,
    at: Option<PlaceView>,
    depth: usize,
)
    requires
        run.mode == StepMode::One,
    ensures
        run.ends_with(breakpoints, SeenView::Running { asmop, at, depth }) == Some(
            StepResult::Stepped,
        ),
{
}

/// Stepping out goes on as long as calls are nested as deep as where it began, or deeper, and ends
/// where they are nested less deep.
pub proof fn stepping_out_ends_with_the_call(
    run: RunView,
    breakpoints: Seq<PlaceView>,
    asmop: Option<AssemblyOpView>,
    at: Option<PlaceView>,
    depth: usize,
)
    requires
        run.mode == StepMode::Out,
    ensures
        ({
            let end = run.ends_with(breakpoints, SeenView::Running { asmop, at, depth });
            &&& run.start_depth <= depth ==> end is None
            &&& depth < run.start_depth ==> end == Some(StepResult::Stepped)
        }),
{
}

/// Continuing ends with a cycle behind which a breakpoint is hit, at the line of the breakpoint, and
/// with no other: a breakpoint is hit where an instruction comes next that stands at its line, in a
/// file whose path ends with that of the breakpoint, or the other way round.
pub proof fn continuing_ends_at_a_breakpoint(
    run: RunView,
    breakpoints: Seq<PlaceView>,
    asmop: Option<AssemblyOpView>,
    at: Option<PlaceView>,
    depth: usize,
)
    requires
        run.mode == StepMode::UntilBreakpoint,
    ensures
        match run.ends_with(breakpoints, SeenView::Running { asmop, at, depth }) {
            Some(StepResult::Breakpoint(line)) => {
                &&& asmop is Some
                &&& at matches Some(place)
                &&& place.line == line
                &&& exists|i: int|
                    {
                        &&& 0 <= i < breakpoints.len()
                        &&& (#[trigger] breakpoints[i]).line == line
                        &&& breakpoints[i].path.is_suffix_of(place.path)
                            || place.path.is_suffix_of(breakpoints[i].path)
                    }
            },
            Some(_) => false,
            None => asmop is None || at is None || forall|i: int|
                0 <= i < breakpoints.len() && (#[trigger] breakpoints[i]).line == at->Some_0.line
                    ==> !breakpoints[i].path.is_suffix_of(at->Some_0.path)
                    && !at->Some_0.path.is_suffix_of(breakpoints[i].path),
        },
{
    if let Some(place) = at {
        assert forall|i: int| 0 <= i < breakpoints.len() implies {
            &&& crate::text::has_suffix(place.path, (#[trigger] breakpoints[i]).path)
                == breakpoints[i].path.is_suffix_of(place.path)
            &&& crate::text::has_suffix(breakpoints[i].path, place.path)
                == place.path.is_suffix_of(breakpoints[i].path)
        } by {
            crate::text::ends_of_texts(place.path, breakpoints[i].path);
            crate::text::ends_of_texts(breakpoints[i].path, place.path);
        }
        if hits(breakpoints, place) {
            let i = choose|i: int|
                0 <= i < breakpoints.len() && (#[trigger] breakpoints[i]).is_hit_at(place);
            assert(breakpoints[i].is_hit_at(place));
        } else {
            assert forall|i: int|
                0 <= i < breakpoints.len() && (#[trigger] breakpoints[i]).line == place.line implies !breakpoints[i].path.is_suffix_of(
            place.path) && !place.path.is_suffix_of(breakpoints[i].path) by {
                assert(!breakpoints[i].is_hit_at(place));
            }
        }
    }
}

/// However far a program is to go, the stretch ends where the program ends, or fails.
pub proof fn a_stretch_ends_with_the_program(run: RunView, breakpoints: Seq<PlaceView>, error: StepError)
    ensures
        run.ends_with(breakpoints, SeenView::Completed) == Some(StepResult::Terminated),
        run.ends_with(breakpoints, SeenView::Failed(error)) == Some(StepResult::Error(error)),
{
}

/// Outside of all calls there is nothing to step out of: the stretch ends with the program alone.
pub proof fn nothing_is_outside_of_all_calls(
    run: RunView,
    breakpoints: Seq<PlaceView>,
    seen: SeenView,
)
    requires
        run.mode == StepMode::Out,
        run.start_depth == 0,
    ensures
        run.ends_with(breakpoints, seen) == match seen {
            SeenView::Running { .. } => None::<StepResult>,
            SeenView::Completed => Some(StepResult::Terminated),
            SeenView::Failed(e) => Some(StepResult::Error(e)),
        },
{
}

/// A program that a debug client steers.
pub struct DapSession {
    pub breakpoints: Vec<StoredBreakpoint>,
    /// How many cycles the program has run.
    pub cycle: usize,
    /// The instruction that comes next.
    pub current_asmop: Option<AssemblyOp>,
    /// What is needed to go on with the program; none once it has come to its end.
    pub resume_ctx: Option<ResumeContext>,
    /// How deep calls are nested.
    pub call_depth: usize,
}

impl DapSession {
    /// A program that has not run.
    pub fn new(resume_ctx: ResumeContext, current_asmop: Option<AssemblyOp>) -> (r: Self)
        ensures
            r.breakpoints@.len() == 0,
            r.cycle == 0,
            r.current_asmop == current_asmop,
            r.resume_ctx == Some(resume_ctx),
            r.call_depth == 0,
    {
        DapSession {
            breakpoints: Vec::new(),
            cycle: 0,
            current_asmop,
            resume_ctx: Some(resume_ctx),
            call_depth: 0,
        }
    }

    /// Notes what the program reports.
    pub fn on_trace(&mut self, trace_id: u32)
        requires
            old(self).call_depth < usize::MAX,
        ensures
            final(self).call_depth == crate::exec::diagnostic::depth_after(
                old(self).call_depth,
                TraceEvent::of_id(trace_id),
            ),
            *final(self) == (DapSession { call_depth: final(self).call_depth, ..*old(self) }),
    {
        let event = TraceEvent::from_id(trace_id);
        self.call_depth = crate::exec::diagnostic::track_depth(self.call_depth, event);
    }

    /// Begins a stretch of cycles.
    pub fn begin_run(&self, mode: StepMode) -> (r: StepRun)
        ensures
            r.mode == mode,
            r.original_asmop == self.current_asmop,
            r.start_depth == self.call_depth,
    {
        StepRun {
            mode,
            original_asmop: crate::debug::op::clone_asmop(&self.current_asmop),
            start_depth: self.call_depth,
        }
    }

    /// Begins a cycle: hands out what is needed to go on. A program that has come to its end has
    /// nothing to go on with.
    pub fn take_step(&mut self) -> (r: Result<ResumeContext, StepResult>)
        ensures
            *final(self) == (DapSession { resume_ctx: None, ..*old(self) }),
            match r {
                Ok(ctx) => old(self).resume_ctx == Some(ctx),
                Err(result) => old(self).resume_ctx is None && result is Terminated,
            },
    {
        match self.resume_ctx.take() {
            Some(ctx) => Ok(ctx),
            None => Err(StepResult::Terminated),
        }
    }

    /// Whether it matters for the stretch where an instruction stands in the sources.
    pub fn needs_place(&self, run: &StepRun) -> (r: bool)
        ensures
            r == (run.mode == StepMode::UntilBreakpoint && self.breakpoints@.len() > 0),
    {
        run.mode == StepMode::UntilBreakpoint && self.breakpoints.len() > 0
    }

    /// Ends a cycle of a stretch. Returns how the stretch ended, or none where it goes on.
    pub fn finish_step(&mut self, run: &StepRun, seen: StepSeen) -> (r: Option<StepResult>)
        requires
            old(self).cycle < usize::MAX,
        ensures
            r == run@.ends_with(
                breakpoint_views(old(self).breakpoints@),
                seen.at_depth(old(self).call_depth),
            ),
            match seen {
                StepSeen::Running { resume_ctx, asmop, .. } => *final(self) == (DapSession {
                    cycle: (old(self).cycle + 1) as usize,
                    current_asmop: asmop,
                    resume_ctx: Some(resume_ctx),
                    ..*old(self)
                }),
                StepSeen::Completed => *final(self) == (DapSession {
                    cycle: (old(self).cycle + 1) as usize,
                    current_asmop: None,
                    ..*old(self)
                }),
                StepSeen::Failed(_) => *final(self) == *old(self),
            },
    {
        match seen {
            StepSeen::Failed(e) => Some(StepResult::Error(e)),
            StepSeen::Completed => {
                self.cycle = self.cycle + 1;
                self.current_asmop = None;
                Some(StepResult::Terminated)
            },
            StepSeen::Running { resume_ctx, asmop, at } => {
                self.cycle = self.cycle + 1;
                self.current_asmop = asmop;
                self.resume_ctx = Some(resume_ctx);
                let arrived = match run.mode {
                    StepMode::One => true,
                    StepMode::Over => !crate::debug::op::same_asmop(
                        &self.current_asmop,
                        &run.original_asmop,
                    ),
                    StepMode::Out => self.call_depth < run.start_depth,
                    StepMode::UntilBreakpoint => match &at {
                        Some(at) => if self.current_asmop.is_some() && is_hit(
                            &self.breakpoints,
                            at,
                        ) {
                            return Some(StepResult::Breakpoint(at.line));
                        } else {
                            false
                        },
                        None => false,
                    },
                };
                if arrived {
                    Some(StepResult::Stepped)
                } else {
                    None
                }
            },
        }
    }

    /// Ends a cycle of a program that nobody steers any more: the rest of it is run without
    /// counting. Returns how the program ended, or none where it goes on.
    pub fn drain(&mut self, seen: StepSeen) -> (r: Option<Result<(), StepError>>)
        ensures
            match seen {
                StepSeen::Running { resume_ctx, .. } => {
                    &&& r is None
                    &&& *final(self) == (DapSession {
                        resume_ctx: Some(resume_ctx),
                        ..*old(self)
                    })
                },
                StepSeen::Completed => {
                    &&& r == Some(Ok::<(), StepError>(()))
                    &&& *final(self) == *old(self)
                },
                StepSeen::Failed(e) => {
                    &&& r == Some(Err::<(), StepError>(e))
                    &&& *final(self) == *old(self)
                },
            },
    {
        match seen {
            StepSeen::Running { resume_ctx, .. } => {
                self.resume_ctx = Some(resume_ctx);
                None
            },
            StepSeen::Completed => Some(Ok(())),
            StepSeen::Failed(e) => Some(Err(e)),
        }
    }

    /// What the program leaves behind: the top of its operand stack.
    pub fn outputs(processor: &FastProcessor) -> (r: StackOutputs)
        ensures
            r.wf(),
            r.elements@ == crate::exec::trace::top_of_stack(
                crate::exec::trace::stack_of(*processor),
            ),
    {
        StackOutputs::top_of(&crate::exec::trace::stack_state(processor))
    }
}

} // verus!
