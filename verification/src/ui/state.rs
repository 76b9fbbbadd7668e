//! All that the user interface shows and changes.
use std::collections::{BTreeSet, VecDeque};
use std::sync::Arc;

use miden_core::advice::AdviceInputs;
use miden_core::mast::MastForest;
use miden_core::program::Program;
use vstd::prelude::*;
use vstd::string::*;

use crate::config::DebuggerConfig;
use crate::debug::memory::{FormatType, ReadMemoryExpr, Type};
use crate::debug::source::{ResolvedLocation, ResolvedView};
use crate::debug::stacktrace::{CallFrame, CallStack, FrameView, StackView};
use crate::exec::advice::{AdviceMutation, Felt, Record, Word, MODULUS};
use crate::exec::dap_client::{RemoteFrame, RemoteFrameView, RemoteVariable};
use crate::exec::executor::{Dependency, Executor, Library, ResolvedDependency};
use crate::exec::host::DebuggerHost;
use crate::exec::options::{RunOptions, StackInputs};
use crate::exec::snapshot::AdviceContents;
use crate::exec::state::{DebugExecutor, StepError};
use crate::exec::trace::{ExecutionTrace, StackOutputs, STACK_DEPTH};
use crate::ui::breakpoint::{Breakpoint, BreakpointType, MOST_TRIES};

verus! {

// ---------------------------------------------------------------------------------------------
// Setting up a program
// ---------------------------------------------------------------------------------------------

/// The operand stack that a program starts with, the top first: the arguments, which are pushed in
/// their order, so that the last of them is on top; else the elements of the inputs, which are
/// pushed in their order too; else zeros.
pub open spec fn initial_stack(config: DebuggerConfig) -> Result<Seq<Felt>, Seq<char>> {
    if config.args@.len() > STACK_DEPTH {
        Err(crate::exec::options::too_many(config.args@.len()))
    } else if config.args@.len() > 0 {
        Ok(crate::exec::options::padded(config.args@.reverse()))
    } else {
        match config.inputs {
            Some(inputs) => Ok(inputs.inputs.elements@.reverse()),
            None => Ok(crate::exec::options::padded(Seq::empty())),
        }
    }
}

/// The arguments are elements of the field, and the inputs are well-formed.
pub open spec fn config_wf(config: DebuggerConfig) -> bool {
    &&& forall|i: int| 0 <= i < config.args@.len() ==> Felt::valid(#[trigger] config.args@[i])
    &&& config.inputs matches Some(inputs) ==> inputs.wf()
}

/// The last of the libraries with a hash.
pub open spec fn last_library(libraries: Seq<Library>, digest: Word) -> Option<Library>
    decreases libraries.len(),
{
    if libraries.len() == 0 {
        None
    } else if libraries.last().digest == digest {
        Some(libraries.last())
    } else {
        last_library(libraries.drop_last(), digest)
    }
}

/// Whether all dependencies are among the libraries.
pub open spec fn all_linked(libraries: Seq<Library>, dependencies: Seq<Dependency>) -> bool {
    forall|i: int|
        0 <= i < dependencies.len() ==> last_library(
            libraries,
            (#[trigger] dependencies[i]).digest,
        ) is Some
}

/// The libraries behind dependencies.
pub open spec fn linked(libraries: Seq<Library>, dependencies: Seq<Dependency>) -> Seq<Library> {
    Seq::new(
        dependencies.len(),
        |i: int| last_library(libraries, dependencies[i].digest)->Some_0,
    )
}

/// Whether an executor is set up with this configuration: the stack is the initial one, the advice
/// that of the inputs, added to none, the limits the usual ones; the program can call the libraries, and again
/// those that it depends on.
pub open spec fn is_prepared(
    executor: Executor,
    config: DebuggerConfig,
    libraries: Seq<Library>,
    dependencies: Seq<Dependency>,
) -> bool {
    let advice = crate::exec::snapshot::advice_of(executor.advice);
    &&& executor.wf()
    &&& initial_stack(config) == Ok::<Seq<Felt>, Seq<char>>(executor.stack.elements@)
    &&& executor.options == (RunOptions {
        enable_tracing: true,
        enable_debugging: true,
        ..RunOptions::usual()
    })
    &&& executor.libraries@ == libraries + linked(libraries, dependencies)
    &&& match config.inputs {
        Some(inputs) => advice == crate::exec::executor::advice_joined(
            AdviceContents::none(),
            crate::exec::snapshot::advice_of(inputs.advice_inputs),
        ),
        None => advice == AdviceContents::none(),
    }
}

fn stack_of(config: &DebuggerConfig) -> (r: Result<Vec<Felt>, String>)
    requires
        config_wf(*config),
    ensures
        match r {
            Ok(args) => {
                &&& args@.len() <= STACK_DEPTH
                &&& forall|i: int| 0 <= i < args@.len() ==> Felt::valid(#[trigger] args@[i])
                &&& initial_stack(*config) == Ok::<Seq<Felt>, Seq<char>>(
                    crate::exec::options::padded(args@),
                )
            },
            Err(m) => initial_stack(*config) == Err::<Seq<Felt>, Seq<char>>(m@),
        },
{
    let mut args: Vec<Felt> = Vec::new();
    if config.args.len() > 0 {
        if let Err(m) = StackInputs::new(&config.args) {
            return Err(m);
        }
        let mut i: usize = config.args.len();
        while i > 0
            invariant
                i <= config.args@.len() <= STACK_DEPTH,
                args@ == config.args@.reverse().take(config.args@.len() - i),
                config_wf(*config),
                forall|k: int| 0 <= k < args@.len() ==> Felt::valid(#[trigger] args@[k]),
            decreases i,
        {
            i -= 1;
            args.push(config.args[i]);
        }
        proof {
            assert(args@ =~= config.args@.reverse());
        }
    } else if let Some(inputs) = &config.inputs {
        let stack = &inputs.inputs.elements;
        let mut i: usize = stack.len();
        while i > 0
            invariant
                i <= stack@.len(),
                StackInputs::valid(stack@),
                args@ == stack@.reverse().take(stack@.len() - i),
                forall|k: int| 0 <= k < args@.len() ==> Felt::valid(#[trigger] args@[k]),
            decreases i,
        {
            i -= 1;
            args.push(stack[i]);
        }
        proof {
            assert(args@ =~= stack@.reverse());
            assert(crate::exec::options::padded(args@) =~= stack@.reverse());
        }
    }
    Ok(args)
}

/// Sets up an executor: with these libraries, and with those among them that the program depends
/// on.
pub fn prepare_executor(
    config: &DebuggerConfig,
    libraries: &Vec<Library>,
    dependencies: &Vec<Dependency>,
) -> (r: Result<Executor, String>)
    requires
        config_wf(*config),
        all_linked(libraries@, dependencies@),
    ensures
        match r {
            Ok(executor) => is_prepared(executor, *config, libraries@, dependencies@),
            Err(m) => initial_stack(*config) == Err::<Seq<Felt>, Seq<char>>(m@),
        },
{
    let args = match stack_of(config) {
        Ok(args) => args,
        Err(m) => {
            return Err(m);
        },
    };
    let mut executor = Executor::new(args);
    let ghost bare = executor;
    let mut i: usize = 0;
    while i < libraries.len()
        invariant
            i <= libraries@.len(),
            executor.libraries@ == libraries@.take(i as int),
            forall|digest: Word| (#[trigger] executor.dependency_resolver.lookup(digest))
                == as_library(last_library(libraries@.take(i as int), digest)),
            executor.stack == bare.stack,
            executor.advice == bare.advice,
            executor.options == bare.options,
        decreases libraries@.len() - i,
    {
        executor.register_library_dependency(libraries[i].clone());
        executor.with_library(libraries[i].clone());
        i += 1;
        proof {
            assert(libraries@.take(i as int).drop_last() =~= libraries@.take(i - 1));
            assert(libraries@.take(i as int) =~= libraries@.take(i - 1).push(libraries@[i - 1]));
        }
    }
    proof {
        assert(libraries@.take(i as int) =~= libraries@);
        linked_are_known(executor.dependency_resolver, libraries@, dependencies@);
    }
    if let Err(m) = executor.with_dependencies(dependencies) {
        return Err(m);
    }
    if let Some(inputs) = &config.inputs {
        executor.with_advice_inputs(crate::exec::executor::copy_advice(&inputs.advice_inputs));
    }
    Ok(executor)
}

/// Whether all dependencies are among the libraries.
pub fn is_linked(libraries: &Vec<Library>, dependencies: &Vec<Dependency>) -> (r: bool)
    ensures
        r == all_linked(libraries@, dependencies@),
{
    let mut i: usize = 0;
    while i < dependencies.len()
        invariant
            i <= dependencies@.len(),
            forall|k: int|
                0 <= k < i ==> last_library(
                    libraries@,
                    (#[trigger] dependencies@[k]).digest,
                ) is Some,
        decreases dependencies@.len() - i,
    {
        let digest = dependencies[i].digest;
        let mut k: usize = libraries.len();
        let mut found = false;
        proof {
            assert(libraries@.take(k as int) =~= libraries@);
        }
        while k > 0 && !found
            invariant
                k <= libraries@.len(),
                found ==> last_library(libraries@, digest) is Some,
                !found ==> last_library(libraries@, digest) == last_library(
                    libraries@.take(k as int),
                    digest,
                ),
            decreases k,
        {
            proof {
                assert(libraries@.take(k as int).drop_last() =~= libraries@.take(k - 1));
            }
            if libraries[k - 1].digest == digest {
                found = true;
            }
            k -= 1;
        }
        if !found {
            proof {
                assert(dependencies@[i as int].digest == digest);
            }
            return false;
        }
        i += 1;
    }
    true
}

/// A library as something that can be depended on.
pub open spec fn as_library(library: Option<Library>) -> Option<ResolvedDependency> {
    match library {
        Some(library) => Some(ResolvedDependency::Library(library)),
        None => None,
    }
}

proof fn linked_are_known(
    resolver: crate::exec::executor::DependencyResolver,
    libraries: Seq<Library>,
    dependencies: Seq<Dependency>,
)
    requires
        all_linked(libraries, dependencies),
        forall|digest: Word| (#[trigger] resolver.lookup(digest)) == as_library(
            last_library(libraries, digest),
        ),
    ensures
        crate::exec::executor::dependencies_known(resolver, dependencies),
        crate::exec::executor::dependency_libraries(resolver, dependencies) == (
            linked(libraries, dependencies),
            None::<Seq<char>>,
        ),
    decreases dependencies.len(),
{
    if dependencies.len() > 0 {
        assert(last_library(libraries, dependencies[0].digest) is Some);
        assert forall|i: int| 0 <= i < dependencies.skip(1).len() implies last_library(
            libraries,
            (#[trigger] dependencies.skip(1)[i]).digest,
        ) is Some by {
            assert(dependencies.skip(1)[i] == dependencies[i + 1]);
        }
        linked_are_known(resolver, libraries, dependencies.skip(1));
        assert(seq![linked(libraries, dependencies)[0]] + linked(libraries, dependencies.skip(1))
            =~= linked(libraries, dependencies));
    } else {
        assert(linked(libraries, dependencies) =~= Seq::<Library>::empty());
    }
}

// ---------------------------------------------------------------------------------------------
// The state
// ---------------------------------------------------------------------------------------------

/// What is debugged.
#[derive(Debug, Clone, Copy, PartialEq, Eq, Structural)]
pub enum DebugMode {
    /// A program.
    Program,
    /// A transaction, whose events were recorded.
    Transaction,
    /// A program that runs elsewhere.
    RemoteDap,
}

/// What becomes of what the user types.
#[derive(Debug, Clone, Copy, PartialEq, Eq, Structural)]
pub enum InputMode {
    Normal,
    Insert,
    Command,
}

impl Default for InputMode {
    fn default() -> (r: Self)
        ensures
            r == InputMode::Normal,
    {
        InputMode::Normal
    }
}

/// All that the user interface shows and changes.
pub struct State {
    pub config: DebuggerConfig,
    pub executor: DebugExecutor,
    /// The state in which the program ends.
    pub execution_trace: ExecutionTrace,
    pub execution_failed: Option<StepError>,
    pub input_mode: InputMode,
    pub breakpoints: Vec<Breakpoint>,
    /// The breakpoints at which the program has stopped.
    pub breakpoints_hit: Vec<Breakpoint>,
    /// The number that is tried first for the next breakpoint.
    pub next_breakpoint_id: u8,
    pub stopped: bool,
    pub debug_mode: DebugMode,
}

/// A program that was set up twice: once to be stepped through, and once to be run to its end.
pub struct Launch {
    pub state: State,
    pub host: DebuggerHost,
    /// To be run to its end, for the trace.
    pub trace_executor: DebugExecutor,
    pub trace_host: DebuggerHost,
}

/// A program that was set up to be run to its end, beside one to be stepped through.
pub struct Relaunch {
    pub host: DebuggerHost,
    /// To be run to its end, for the trace.
    pub trace_executor: DebugExecutor,
    pub trace_host: DebuggerHost,
}

/// Whether the program was set up with this configuration, and has not run.
pub open spec fn sets_up(
    executor: DebugExecutor,
    host: DebuggerHost,
    config: DebuggerConfig,
    libraries: Seq<Library>,
    dependencies: Seq<Dependency>,
    program: Program,
) -> bool {
    exists|e: Executor|
        {
            &&& #[trigger] is_prepared(e, config, libraries, dependencies)
            &&& e.sets_up(program, executor, host, Seq::empty(), Seq::empty())
        }
}

/// Whether the program cannot be started with this configuration, and why.
pub open spec fn is_refused(
    config: DebuggerConfig,
    libraries: Seq<Library>,
    dependencies: Seq<Dependency>,
    program: Program,
    message: Seq<char>,
) -> bool {
    exists|e: Executor|
        {
            &&& #[trigger] is_prepared(e, config, libraries, dependencies)
            &&& e.is_refused(program, message)
        }
}

fn launch(
    config: &DebuggerConfig,
    libraries: &Vec<Library>,
    dependencies: &Vec<Dependency>,
    program: &Program,
) -> (r: Result<(DebugExecutor, DebuggerHost), String>)
    requires
        config_wf(*config),
        all_linked(libraries@, dependencies@),
    ensures
        match r {
            Ok((executor, host)) => sets_up(
                executor,
                host,
                *config,
                libraries@,
                dependencies@,
                *program,
            ),
            Err(m) => initial_stack(*config) == Err::<Seq<Felt>, Seq<char>>(m@) || is_refused(
                *config,
                libraries@,
                dependencies@,
                *program,
                m@,
            ),
        },
{
    match prepare_executor(config, libraries, dependencies) {
        Ok(executor) => executor.into_debug(program),
        Err(m) => Err(m),
    }
}

impl State {
    /// The numbers of all breakpoints.
    pub open spec fn ids(&self) -> Seq<u8> {
        crate::ui::breakpoint::ids_of(self.breakpoints@) + crate::ui::breakpoint::ids_of(
            self.breakpoints_hit@,
        )
    }

    /// The executor and the trace are well-formed, and no two breakpoints have the same number.
    pub open spec fn wf(&self) -> bool {
        &&& self.executor.wf()
        &&& self.execution_trace.wf()
        &&& self.ids().no_duplicates()
    }

    /// Whether nothing was done yet: no breakpoint was made, and the program has stopped at its
    /// entry.
    pub open spec fn untouched(&self) -> bool {
        &&& self.execution_failed is None
        &&& self.input_mode == InputMode::Normal
        &&& self.breakpoints@.len() == 0
        &&& self.breakpoints_hit@.len() == 0
        &&& self.next_breakpoint_id == 0
        &&& self.stopped
    }

    fn with(config: DebuggerConfig, executor: DebugExecutor, debug_mode: DebugMode) -> (r: Self)
        requires
            executor.wf(),
        ensures
            r.wf(),
            r.untouched(),
            r.config == config,
            r.executor == executor,
            r.debug_mode == debug_mode,
            r.execution_trace.is_blank(),
    {
        State {
            config,
            executor,
            execution_trace: ExecutionTrace::empty(),
            execution_failed: None,
            input_mode: InputMode::default(),
            breakpoints: Vec::new(),
            breakpoints_hit: Vec::new(),
            next_breakpoint_id: 0,
            stopped: true,
            debug_mode,
        }
    }

    /// The state in which a program is loaded. The trace is empty as long as the program was not
    /// run to its end.
    pub fn new(
        config: DebuggerConfig,
        libraries: &Vec<Library>,
        dependencies: &Vec<Dependency>,
        program: &Program,
    ) -> (r: Result<Launch, String>)
        requires
            config_wf(config),
            all_linked(libraries@, dependencies@),
        ensures
            match r {
                Ok(launch) => {
                    &&& launch.state.wf()
                    &&& launch.state.untouched()
                    &&& launch.state.config == config
                    &&& launch.state.debug_mode == DebugMode::Program
                    &&& launch.state.execution_trace.is_blank()
                    &&& sets_up(
                        launch.state.executor,
                        launch.host,
                        config,
                        libraries@,
                        dependencies@,
                        *program,
                    )
                    &&& sets_up(
                        launch.trace_executor,
                        launch.trace_host,
                        config,
                        libraries@,
                        dependencies@,
                        *program,
                    )
                },
                Err(m) => initial_stack(config) == Err::<Seq<Felt>, Seq<char>>(m@) || is_refused(
                    config,
                    libraries@,
                    dependencies@,
                    *program,
                    m@,
                ),
            },
    {
        let (executor, host) = match launch(&config, libraries, dependencies, program) {
            Ok(both) => both,
            Err(m) => {
                return Err(m);
            },
        };
        let (trace_executor, trace_host) = match launch(&config, libraries, dependencies, program) {
            Ok(both) => both,
            Err(m) => {
                return Err(m);
            },
        };
        let state = State::with(config, executor, DebugMode::Program);
        Ok(Launch { state, host, trace_executor, trace_host })
    }

    /// The state in which a transaction is loaded, whose events were recorded: once for the
    /// transaction to be stepped through, and once for the one that is run to its end.
    pub fn new_for_transaction(
        program: &Program,
        stack_inputs: Vec<Felt>,
        advice_inputs: AdviceInputs,
        mast_forests: &Vec<Arc<MastForest>>,
        event_replay: Vec<Vec<AdviceMutation>>,
        trace_replay: Vec<Vec<AdviceMutation>>,
    ) -> (r: Result<Launch, String>)
        requires
            stack_inputs@.len() <= STACK_DEPTH,
            forall|i: int|
                0 <= i < stack_inputs@.len() ==> Felt::valid(#[trigger] stack_inputs@[i]),
        ensures
            match r {
                Ok(launch) => {
                    &&& launch.state.wf()
                    &&& launch.state.untouched()
                    &&& launch.state.config.is_bare()
                    &&& launch.state.debug_mode == DebugMode::Transaction
                    &&& launch.state.execution_trace.is_blank()
                    &&& replays(
                        launch.state.executor,
                        launch.host,
                        *program,
                        stack_inputs@,
                        crate::exec::snapshot::advice_of(advice_inputs),
                        mast_forests@,
                        event_replay@,
                    )
                    &&& replays(
                        launch.trace_executor,
                        launch.trace_host,
                        *program,
                        stack_inputs@,
                        crate::exec::snapshot::advice_of(advice_inputs),
                        mast_forests@,
                        trace_replay@,
                    )
                },
                Err(m) => exists|e: Executor|
                    {
                        &&& #[trigger] is_prepared_for(e, stack_inputs@, crate::exec::snapshot::advice_of(advice_inputs))
                        &&& e.is_refused(*program, m@)
                    },
            },
    {
        let advice = crate::exec::executor::copy_advice(&advice_inputs);
        let (executor, host) = match launch_replay(
            program,
            copy_felts(&stack_inputs),
            advice,
            mast_forests,
            event_replay,
        ) {
            Ok(both) => both,
            Err(m) => {
                return Err(m);
            },
        };
        let (trace_executor, trace_host) = match launch_replay(
            program,
            stack_inputs,
            advice_inputs,
            mast_forests,
            trace_replay,
        ) {
            Ok(both) => both,
            Err(m) => {
                return Err(m);
            },
        };
        let state = State::with(DebuggerConfig::new(), executor, DebugMode::Transaction);
        Ok(Launch { state, host, trace_executor, trace_host })
    }
}

/// Whether an executor is set up for a transaction: with this stack and this advice, and the usual
/// limits.
pub open spec fn is_prepared_for(
    executor: Executor,
    stack: Seq<Felt>,
    given: AdviceContents,
) -> bool {
    let advice = crate::exec::snapshot::advice_of(executor.advice);
    &&& executor.wf()
    &&& executor.stack.elements@ == crate::exec::options::padded(stack)
    &&& executor.options == (RunOptions {
        enable_tracing: true,
        enable_debugging: true,
        ..RunOptions::usual()
    })
    &&& executor.libraries@.len() == 0
    &&& advice == crate::exec::executor::advice_joined(AdviceContents::none(), given)
}

/// Whether the transaction was set up, and has not run; its events are played back.
pub open spec fn replays(
    executor: DebugExecutor,
    host: DebuggerHost,
    program: Program,
    stack: Seq<Felt>,
    given: AdviceContents,
    forests: Seq<Arc<MastForest>>,
    events: Seq<Vec<AdviceMutation>>,
) -> bool {
    exists|e: Executor|
        {
            &&& #[trigger] is_prepared_for(e, stack, given)
            &&& e.sets_up(program, executor, host, forests, events)
        }
}

fn copy_felts(felts: &Vec<Felt>) -> (r: Vec<Felt>)
    ensures
        r@ == felts@,
{
    let mut out: Vec<Felt> = Vec::new();
    let mut i: usize = 0;
    while i < felts.len()
        invariant
            i <= felts@.len(),
            out@ == felts@.take(i as int),
        decreases felts@.len() - i,
    {
        out.push(felts[i]);
        i += 1;
    }
    out
}

fn launch_replay(
    program: &Program,
    stack_inputs: Vec<Felt>,
    advice_inputs: AdviceInputs,
    mast_forests: &Vec<Arc<MastForest>>,
    event_replay: Vec<Vec<AdviceMutation>>,
) -> (r: Result<(DebugExecutor, DebuggerHost), String>)
    requires
        stack_inputs@.len() <= STACK_DEPTH,
        forall|i: int| 0 <= i < stack_inputs@.len() ==> Felt::valid(#[trigger] stack_inputs@[i]),
    ensures
        match r {
            Ok((executor, host)) => replays(
                executor,
                host,
                *program,
                stack_inputs@,
                crate::exec::snapshot::advice_of(advice_inputs),
                mast_forests@,
                event_replay@,
            ),
            Err(m) => exists|e: Executor|
                {
                    &&& #[trigger] is_prepared_for(e, stack_inputs@, crate::exec::snapshot::advice_of(advice_inputs))
                    &&& e.is_refused(*program, m@)
                },
        },
{
    let ghost given = crate::exec::snapshot::advice_of(advice_inputs);
    let mut executor = Executor::new(stack_inputs);
    executor.with_advice_inputs(advice_inputs);
    proof {
        assert(is_prepared_for(executor, stack_inputs@, given));
    }
    let mut forests: Vec<Arc<MastForest>> = Vec::new();
    let mut i: usize = 0;
    while i < mast_forests.len()
        invariant
            i <= mast_forests@.len(),
            forests@ == mast_forests@.take(i as int),
        decreases mast_forests@.len() - i,
    {
        forests.push(Arc::clone(&mast_forests[i]));
        i += 1;
    }
    proof {
        assert(forests@ =~= mast_forests@);
    }
    executor.into_debug_with_replay(program, forests, crate::trace::queue_of(event_replay))
}

// ---------------------------------------------------------------------------------------------
// Breakpoints
// ---------------------------------------------------------------------------------------------

impl State {
    /// The number of the next breakpoint; none where too many are used.
    pub open spec fn free_id(&self) -> Option<u8> {
        crate::ui::breakpoint::first_free(
            self.ids().to_set(),
            self.next_breakpoint_id,
            MOST_TRIES as nat,
        )
    }

    fn uses_id(&self, id: u8) -> (r: bool)
        ensures
            r == self.ids().to_set().contains(id),
    {
        let r = crate::ui::breakpoint::is_used(&self.breakpoints, id)
            || crate::ui::breakpoint::is_used(&self.breakpoints_hit, id);
        proof {
            let ids = crate::ui::breakpoint::ids_of(self.breakpoints@);
            let hit = crate::ui::breakpoint::ids_of(self.breakpoints_hit@);
            if ids.to_set().contains(id) {
                let i = choose|i: int| 0 <= i < ids.len() && ids[i] == id;
                assert(self.ids()[i] == id);
            }
            if hit.to_set().contains(id) {
                let i = choose|i: int| 0 <= i < hit.len() && hit[i] == id;
                assert(self.ids()[ids.len() + i] == id);
            }
            if self.ids().to_set().contains(id) {
                let i = choose|i: int| 0 <= i < self.ids().len() && self.ids()[i] == id;
                if i < ids.len() {
                    assert(ids[i] == id);
                } else {
                    assert(hit[i - ids.len()] == id);
                }
            }
        }
        r
    }

    /// Finds a number for another breakpoint; none where too many are used.
    pub fn available_id(&self) -> (r: Option<u8>)
        ensures
            r == self.free_id(),
    {
        let mut candidate: u8 = self.next_breakpoint_id;
        let mut tries: usize = MOST_TRIES;
        while tries > 0
            invariant
                tries <= MOST_TRIES,
                self.free_id() == crate::ui::breakpoint::first_free(
                    self.ids().to_set(),
                    candidate,
                    tries as nat,
                ),
            decreases tries,
        {
            if !self.uses_id(candidate) {
                return Some(candidate);
            }
            candidate = candidate.wrapping_add(1);
            tries -= 1;
        }
        None
    }

    fn next_breakpoint_id(&mut self) -> (r: u8)
        requires
            old(self).free_id() is Some,
        ensures
            old(self).free_id() == Some(r),
            *final(self) == (State {
                next_breakpoint_id: crate::ui::breakpoint::next_id(r),
                ..*old(self)
            }),
    {
        match self.available_id() {
            Some(id) => {
                self.next_breakpoint_id = id.wrapping_add(1);
                id
            },
            None => 0,
        }
    }

    /// Makes a breakpoint. It gets a number that no other breakpoint has. One that stops when the
    /// current procedure is left is noted in the innermost call frame.
    pub fn create_breakpoint(&mut self, ty: BreakpointType)
        requires
            old(self).wf(),
            old(self).free_id() is Some,
        ensures
            final(self).wf(),
            final(self).breakpoints@ == old(self).breakpoints@.push(
                Breakpoint {
                    id: old(self).free_id()->Some_0,
                    creation_cycle: old(self).executor.cycle,
                    ty,
                },
            ),
            final(self).next_breakpoint_id == crate::ui::breakpoint::next_id(
                old(self).free_id()->Some_0,
            ),
            !old(self).ids().contains(old(self).free_id()->Some_0),
            final(self).executor.callstack@ == if ty is Finish {
                finishing(old(self).executor.callstack@)
            } else {
                old(self).executor.callstack@
            },
            *final(self) == (State {
                breakpoints: final(self).breakpoints,
                next_breakpoint_id: final(self).next_breakpoint_id,
                executor: DebugExecutor {
                    callstack: final(self).executor.callstack,
                    ..old(self).executor
                },
                ..*old(self)
            }),
    {
        let ghost before = *self;
        let id = self.next_breakpoint_id();
        let creation_cycle: usize = self.executor.cycle;
        if let BreakpointType::Finish = ty {
            if let Some(frame) = self.executor.callstack.current_frame_mut() {
                frame.break_on_exit();
            }
            proof {
                assert(self.executor.callstack@ == finishing(before.executor.callstack@));
                assert(self.executor.callstack@.wf());
            }
        }
        let ghost ids = crate::ui::breakpoint::ids_of(self.breakpoints@);
        let ghost hit = crate::ui::breakpoint::ids_of(self.breakpoints_hit@);
        self.breakpoints.push(Breakpoint { id, creation_cycle, ty });
        proof {
            crate::ui::breakpoint::found_is_free(
                before.ids().to_set(),
                before.next_breakpoint_id,
                MOST_TRIES as nat,
            );
            assert(!before.ids().contains(id)) by {
                if before.ids().contains(id) {
                    assert(before.ids().to_set().contains(id));
                }
            }
            assert(crate::ui::breakpoint::ids_of(self.breakpoints@) =~= ids.push(id));
            added_stays_unique(ids, hit, id);
        }
    }
}

/// The call stack with its innermost frame noted as one to stop at when it is left.
pub open spec fn finishing(stack: StackView) -> StackView {
    if stack.frames.len() > 0 {
        StackView {
            frames: stack.frames.update(
                stack.frames.len() - 1,
                FrameView { finishing: true, ..stack.frames.last() },
            ),
            ..stack
        }
    } else {
        stack
    }
}

proof fn added_stays_unique(ids: Seq<u8>, hit: Seq<u8>, id: u8)
    requires
        (ids + hit).no_duplicates(),
        !(ids + hit).contains(id),
    ensures
        (ids.push(id) + hit).no_duplicates(),
{
    let before = ids + hit;
    let after = ids.push(id) + hit;
    assert forall|i: int, j: int| 0 <= i < j < after.len() implies after[i] != after[j] by {
        let a = if i > ids.len() { i - 1 } else { i };
        let b = if j > ids.len() { j - 1 } else { j };
        if i == ids.len() {
            assert(after[i] == id);
            assert(after[j] == before[b]);
        } else if j == ids.len() {
            assert(after[j] == id);
            assert(after[i] == before[a]);
        } else {
            assert(after[i] == before[a]);
            assert(after[j] == before[b]);
            assert(a != b);
        }
    }
}

// ---------------------------------------------------------------------------------------------
// Reloading
// ---------------------------------------------------------------------------------------------

/// The breakpoints with new numbers, from zero on, made in a cycle.
pub open spec fn renumbered(breakpoints: Seq<Breakpoint>, cycle: usize) -> Seq<Breakpoint> {
    Seq::new(
        breakpoints.len(),
        |i: int| Breakpoint { id: i as u8, creation_cycle: cycle, ty: breakpoints[i].ty },
    )
}

/// Why a program that is debugged in this way cannot be loaded again.
pub open spec fn reload_refusal(mode: DebugMode) -> Option<Seq<char>> {
    match mode {
        DebugMode::Program => None,
        DebugMode::Transaction => Some("reload is not supported in transaction debug mode"@),
        DebugMode::RemoteDap => Some("reload is not supported in DAP remote debug mode"@),
    }
}

impl State {
    /// Tests whether the program can be loaded again.
    pub fn check_reload(&self) -> (r: Result<(), String>)
        ensures
            match r {
                Ok(()) => reload_refusal(self.debug_mode) is None,
                Err(m) => reload_refusal(self.debug_mode) == Some(m@),
            },
    {
        match self.debug_mode {
            DebugMode::Program => Ok(()),
            DebugMode::Transaction => Err(
                "reload is not supported in transaction debug mode".to_owned(),
            ),
            DebugMode::RemoteDap => Err(
                "reload is not supported in DAP remote debug mode".to_owned(),
            ),
        }
    }

    /// Loads the program again. The breakpoints are made anew, in their order; the trace is empty
    /// as long as the program was not run to its end. A program that cannot be loaded again leaves
    /// all as it is.
    pub fn reload(
        &mut self,
        libraries: &Vec<Library>,
        dependencies: &Vec<Dependency>,
        program: &Program,
    ) -> (r: Result<Relaunch, String>)
        requires
            old(self).wf(),
            config_wf(old(self).config),
            all_linked(libraries@, dependencies@),
        ensures
            final(self).wf(),
            match r {
                Ok(launch) => {
                    &&& reload_refusal(old(self).debug_mode) is None
                    &&& sets_up(
                        final(self).executor,
                        launch.host,
                        old(self).config,
                        libraries@,
                        dependencies@,
                        *program,
                    )
                    &&& sets_up(
                        launch.trace_executor,
                        launch.trace_host,
                        old(self).config,
                        libraries@,
                        dependencies@,
                        *program,
                    )
                    &&& final(self).config == old(self).config
                    &&& final(self).debug_mode == old(self).debug_mode
                    &&& final(self).input_mode == old(self).input_mode
                    &&& final(self).execution_trace.is_blank()
                    &&& final(self).execution_failed is None
                    &&& final(self).breakpoints_hit@.len() == 0
                    &&& final(self).breakpoints@ == renumbered(old(self).breakpoints@, 0)
                    &&& final(self).next_breakpoint_id == old(self).breakpoints@.len() % 256
                    &&& final(self).stopped
                },
                Err(m) => {
                    &&& *final(self) == *old(self)
                    &&& match reload_refusal(old(self).debug_mode) {
                        Some(why) => m@ == why,
                        None => initial_stack(old(self).config) == Err::<Seq<Felt>, Seq<char>>(m@)
                            || is_refused(
                            old(self).config,
                            libraries@,
                            dependencies@,
                            *program,
                            m@,
                        ),
                    }
                },
            },
    {
        if let Err(m) = self.check_reload() {
            return Err(m);
        }
        let (executor, host) = match launch(&self.config, libraries, dependencies, program) {
            Ok(both) => both,
            Err(m) => {
                return Err(m);
            },
        };
        let (trace_executor, trace_host) = match launch(
            &self.config,
            libraries,
            dependencies,
            program,
        ) {
            Ok(both) => both,
            Err(m) => {
                return Err(m);
            },
        };
        let ghost fresh = executor;
        self.executor = executor;
        self.execution_trace = ExecutionTrace::empty();
        self.execution_failed = None;
        self.breakpoints_hit = Vec::new();
        let mut breakpoints: Vec<Breakpoint> = Vec::new();
        std::mem::swap(&mut breakpoints, &mut self.breakpoints);
        self.next_breakpoint_id = 0;
        self.stopped = true;
        let ghost base = *self;
        proof {
            let ids = crate::ui::breakpoint::ids_of(breakpoints@);
            assert(ids.no_duplicates()) by {
                assert forall|i: int, j: int| 0 <= i < j < ids.len() implies ids[i] != ids[j] by {
                    assert(old(self).ids()[i] == ids[i]);
                    assert(old(self).ids()[j] == ids[j]);
                }
            }
            crate::ui::breakpoint::at_most_256(ids);
            assert(self.breakpoints@ =~= renumbered(breakpoints@.take(0), 0));
        }
        let mut i: usize = 0;
        while i < breakpoints.len()
            invariant
                i <= breakpoints@.len() <= 256,
                self.wf(),
                fresh.cycle == 0,
                fresh.callstack@.frames.len() == 0,
                self.executor == (DebugExecutor { callstack: self.executor.callstack, ..fresh }),
                self.executor.callstack@ == fresh.callstack@,
                self.breakpoints@ == renumbered(breakpoints@.take(i as int), 0),
                self.breakpoints_hit@.len() == 0,
                self.next_breakpoint_id == i % 256,
                *self == (State {
                    breakpoints: self.breakpoints,
                    next_breakpoint_id: self.next_breakpoint_id,
                    executor: self.executor,
                    ..base
                }),
            decreases breakpoints@.len() - i,
        {
            proof {
                let used = self.ids().to_set();
                assert(!used.contains(i as u8)) by {
                    if used.contains(i as u8) {
                        let k = choose|k: int|
                            0 <= k < self.ids().len() && self.ids()[k] == i as u8;
                        assert(self.ids()[k] == k as u8);
                    }
                }
                assert(self.free_id() == Some(i as u8));
            }
            self.create_breakpoint(breakpoints[i].ty.clone());
            i += 1;
            proof {
                assert(self.breakpoints@ =~= renumbered(breakpoints@.take(i as int), 0));
            }
        }
        proof {
            assert(breakpoints@.take(i as int) =~= breakpoints@);
            let e = choose|e: Executor|
                {
                    &&& #[trigger] is_prepared(e, self.config, libraries@, dependencies@)
                    &&& e.sets_up(*program, fresh, host, Seq::empty(), Seq::empty())
                };
            assert(e.sets_up(*program, self.executor, host, Seq::empty(), Seq::empty()));
            assert(is_prepared(e, self.config, libraries@, dependencies@));
        }
        Ok(Relaunch { host, trace_executor, trace_host })
    }

    /// Notes the state in which the program ends.
    pub fn set_trace(&mut self, execution_trace: ExecutionTrace)
        requires
            old(self).wf(),
            execution_trace.wf(),
        ensures
            final(self).wf(),
            *final(self) == (State { execution_trace, ..*old(self) }),
    {
        self.execution_trace = execution_trace;
    }
}

// ---------------------------------------------------------------------------------------------
// Reading memory
// ---------------------------------------------------------------------------------------------

/// The elements one after the other, separated by commas.
pub open spec fn listed(elements: Seq<u64>, format: FormatType) -> Seq<char>
    decreases elements.len(),
{
    if elements.len() == 0 {
        Seq::empty()
    } else {
        let last = crate::debug::memory::unsigned_text(elements.last() as nat, format);
        if elements.len() == 1 {
            last
        } else {
            listed(elements.drop_last(), format) + ", "@ + last
        }
    }
}

fn list_elements(elements: &Vec<u64>, format: FormatType) -> (r: String)
    ensures
        r@ == listed(elements@, format),
{
    let mut out = String::new();
    let mut i: usize = 0;
    proof {
        assert(out@ =~= listed(elements@.take(0), format));
    }
    while i < elements.len()
        invariant
            i <= elements@.len(),
            out@ == listed(elements@.take(i as int), format),
        decreases elements@.len() - i,
    {
        proof {
            assert(elements@.take(i + 1).drop_last() =~= elements@.take(i as int));
        }
        if i > 0 {
            out.append(", ");
        }
        out.append(crate::debug::memory::show_unsigned(elements[i], format).as_str());
        i += 1;
        proof {
            assert(out@ =~= listed(elements@.take(i as int), format));
        }
    }
    proof {
        assert(elements@.take(i as int) =~= elements@);
    }
    out
}

impl State {
    /// What is shown of memory, or why nothing is. An element is read in the current context, a
    /// word in the root context; both must be aligned.
    pub open spec fn memory_text(&self, expr: ReadMemoryExpr) -> Result<Seq<char>, Seq<char>> {
        let ctx = self.executor.current_context;
        let trace = self.execution_trace;
        if self.debug_mode == DebugMode::RemoteDap {
            Err("memory reads are not supported in DAP remote debug mode"@)
        } else if expr.count > 1 {
            Err("-count with value > 1 is not yet implemented"@)
        } else if expr.ty is Felt {
            if expr.addr.element_aligned() {
                Ok(
                    crate::debug::memory::unsigned_text(
                        crate::exec::trace::element_at(trace.memory(), ctx, expr.addr.addr) as nat,
                        expr.format,
                    ),
                )
            } else {
                Err("read failed: type 'felt' must be aligned to an element boundary"@)
            }
        } else if expr.ty is Word {
            if expr.addr.word_aligned() {
                Ok(
                    "["@ + listed(trace.word(trace.root_context, expr.addr.addr), expr.format)
                        + "]"@,
                )
            } else {
                Err("read failed: type 'word' must be aligned to a word boundary"@)
            }
        } else if !expr.addr.element_aligned() {
            Err(
                "invalid read: "@
                    + crate::debug::memory::MemoryReadError::UnalignedRead.printed(),
            )
        } else if !crate::exec::trace::addresses_exist(expr.addr.addr, expr.ty.felts()) {
            Err("invalid read: "@ + crate::debug::memory::MemoryReadError::OutOfBounds.printed())
        } else {
            crate::debug::memory::scalar_text(
                expr.ty,
                crate::debug::memory::leading_bytes(
                    trace.elements(ctx, expr.addr.addr, expr.ty.felts()),
                    expr.ty.size(),
                ),
                expr.format,
            )
        }
    }

    /// Reads a value from memory, and shows it.
    pub fn read_memory(&self, expr: &ReadMemoryExpr) -> (r: Result<String, String>)
        requires
            self.debug_mode == DebugMode::RemoteDap || self.executor.cycle <= u32::MAX,
        ensures
            match r {
                Ok(text) => self.memory_text(*expr) == Ok::<Seq<char>, Seq<char>>(text@),
                Err(m) => self.memory_text(*expr) == Err::<Seq<char>, Seq<char>>(m@),
            },
    {
        if self.debug_mode == DebugMode::RemoteDap {
            return Err("memory reads are not supported in DAP remote debug mode".to_owned());
        }
        let cycle: u32 = self.executor.cycle as u32;
        let context: u32 = self.executor.current_context;
        if expr.count > 1 {
            return Err("-count with value > 1 is not yet implemented".to_owned());
        }
        match &expr.ty {
            Type::Felt => {
                if !expr.addr.is_element_aligned() {
                    return Err(
                        "read failed: type 'felt' must be aligned to an element boundary".to_owned(),
                    );
                }
                let felt: u64 = match self.execution_trace.read_memory_element_in_context(
                    expr.addr.addr,
                    context,
                    cycle,
                ) {
                    Some(felt) => felt,
                    None => 0,
                };
                Ok(crate::debug::memory::show_unsigned(felt, expr.format))
            },
            Type::Word => {
                if !expr.addr.is_word_aligned() {
                    return Err(
                        "read failed: type 'word' must be aligned to a word boundary".to_owned(),
                    );
                }
                let word = match self.execution_trace.read_memory_word(expr.addr.addr) {
                    Some(word) => word,
                    None => Vec::new(),
                };
                let mut out = "[".to_owned();
                out.append(list_elements(&word, expr.format).as_str());
                out.append("]");
                Ok(out)
            },
            ty => match self.execution_trace.read_bytes_for_type(expr.addr, ty, context, cycle) {
                Ok(bytes) => crate::debug::memory::show_scalar(ty, &bytes, expr.format),
                Err(e) => Err(crate::text::concat("invalid read: ", e.message().as_str())),
            },
        }
    }
}

// ---------------------------------------------------------------------------------------------
// Programs that run elsewhere
// ---------------------------------------------------------------------------------------------

/// A line or a column that a server tells of, counted from one.
pub open spec fn from_one(n: i64) -> u32 {
    (if n < 1 {
        1
    } else {
        n
    }) as u32
}

/// Where a frame stands: on the line that the server tells of, which reaches over the whole line
/// of the source file; nowhere where there is no file, or no such line in it.
pub open spec fn frame_place(
    frame: RemoteFrameView,
    content: Option<Seq<char>>,
) -> Option<ResolvedView> {
    match (frame.path, content) {
        (Some(path), Some(text)) => {
            let line = from_one(frame.line);
            let index = if line > 0 {
                line - 1
            } else {
                0
            };
            match crate::debug::source::line_bytes(text, index as nat) {
                Some((start, end)) => Some(
                    ResolvedView {
                        uri: path,
                        line,
                        col: from_one(frame.column),
                        start: start as u32,
                        end: end as u32,
                    },
                ),
                None => None,
            }
        },
        _ => None,
    }
}

fn counted_from_one(n: i64) -> (r: u32)
    ensures
        r == from_one(n),
{
    let n: i64 = if n < 1 {
        1
    } else {
        n
    };
    #[verifier::truncate]
    (n as u32)
}

/// Finds out where a frame stands, by the source file that the server names.
pub fn resolve_dap_frame(frame: &RemoteFrame, content: Option<&String>) -> (r: Option<
    ResolvedLocation,
>)
    requires
        content matches Some(text) ==> crate::debug::source::byte_len(text@) < u32::MAX,
    ensures
        crate::debug::source::resolved_view(r) == frame_place(
            frame@,
            match content {
                Some(text) => Some(text@),
                None => None,
            },
        ),
{
    match (&frame.path, content) {
        (Some(path), Some(text)) => {
            let line: u32 = counted_from_one(frame.line);
            let col: u32 = counted_from_one(frame.column);
            let index: u32 = if line > 0 {
                line - 1
            } else {
                0
            };
            match crate::debug::source::line_range(text.as_str(), index) {
                Some((start, end)) => Some(
                    ResolvedLocation { uri: path.clone(), line, col, start, end },
                ),
                None => None,
            }
        },
        _ => None,
    }
}

/// The frames of the call stack that a server tells of.
pub open spec fn remote_frames(
    frames: Seq<RemoteFrame>,
    contents: Seq<Option<String>>,
) -> Seq<FrameView> {
    Seq::new(
        frames.len(),
        |i: int|
            FrameView::remote(
                Some(frames[i].name@),
                frame_place(frames[i]@, crate::debug::op::text_view(contents[i])),
            ),
    )
}

/// The call stack that a server tells of: its frames, and nothing else.
pub open spec fn remote_callstack(
    frames: Seq<RemoteFrame>,
    contents: Seq<Option<String>>,
) -> StackView {
    StackView {
        trace_events: Map::empty(),
        contexts: Set::empty(),
        frames: remote_frames(frames, contents),
        block_stack: Seq::empty(),
    }
}

fn call_frames(frames: &Vec<RemoteFrame>, contents: &Vec<Option<String>>) -> (r: Vec<CallFrame>)
    requires
        frames@.len() == contents@.len(),
        forall|i: int|
            0 <= i < contents@.len() ==> ((#[trigger] contents@[i]) matches Some(text)
                ==> crate::debug::source::byte_len(text@) < u32::MAX),
    ensures
        crate::debug::stacktrace::frame_views(r@) == remote_frames(frames@, contents@),
{
    let mut out: Vec<CallFrame> = Vec::new();
    let mut i: usize = 0;
    while i < frames.len()
        invariant
            i <= frames@.len() == contents@.len(),
            forall|i: int|
                0 <= i < contents@.len() ==> ((#[trigger] contents@[i]) matches Some(text)
                    ==> crate::debug::source::byte_len(text@) < u32::MAX),
            out@.len() == i,
            forall|k: int|
                0 <= k < i ==> (#[trigger] out@[k])@ == remote_frames(frames@, contents@)[k],
        decreases frames@.len() - i,
    {
        let content = match &contents[i] {
            Some(text) => Some(text),
            None => None,
        };
        let resolved = resolve_dap_frame(&frames[i], content);
        out.push(CallFrame::from_remote(Some(frames[i].name.clone()), resolved));
        i += 1;
    }
    proof {
        assert(crate::debug::stacktrace::frame_views(out@) =~= remote_frames(frames@, contents@));
    }
    out
}

/// The element that a text stands for: the number, reduced; zero where the text is no number.
pub open spec fn element_of(text: Seq<char>) -> u64 {
    match crate::text::number_value(text, u64::MAX as nat) {
        Ok(n) => (n % MODULUS as nat) as u64,
        Err(_) => 0,
    }
}

/// The operand stack that a server tells of.
pub open spec fn remote_stack(variables: Seq<RemoteVariable>) -> Seq<u64> {
    Seq::new(variables.len(), |i: int| element_of(variables[i].value@))
}

/// A client shows the operand stack as it is: where the values are those that a server shows of
/// the stack, the stack is the same.
pub proof fn the_stack_arrives(stack: Seq<u64>, variables: Seq<RemoteVariable>)
    requires
        forall|i: int| 0 <= i < stack.len() ==> (#[trigger] stack[i]) < MODULUS,
        variables.len() == stack.len(),
        forall|i: int|
            0 <= i < variables.len() ==> (#[trigger] variables[i]).value@
                == crate::exec::protocol::stack_variables(stack)[i].value,
    ensures
        remote_stack(variables) == stack,
{
    assert forall|i: int| 0 <= i < stack.len() implies remote_stack(variables)[i] == stack[i] by {
        assert(variables[i].value@ == crate::text::decimal(stack[i] as nat));
        crate::text::decimal_reads_back(stack[i] as nat, u64::MAX as nat);
        assert(stack[i] as nat % MODULUS as nat == stack[i] as nat);
    }
    assert(remote_stack(variables) =~= stack);
}

fn stack_values(variables: &Vec<RemoteVariable>) -> (r: Vec<u64>)
    ensures
        r@ == remote_stack(variables@),
{
    let mut out: Vec<u64> = Vec::new();
    let mut i: usize = 0;
    while i < variables.len()
        invariant
            i <= variables@.len(),
            out@ == remote_stack(variables@).take(i as int),
        decreases variables@.len() - i,
    {
        let value: u64 = match crate::text::parse_number(variables[i].value.as_str(), u64::MAX) {
            Ok(n) => n % MODULUS,
            Err(_) => 0,
        };
        out.push(value);
        i += 1;
    }
    proof {
        assert(out@ =~= remote_stack(variables@));
    }
    out
}

/// How many cycles a server tells of; none where it does not say.
pub open spec fn remote_cycle(state: Option<String>) -> Option<usize> {
    match state {
        Some(text) => match crate::exec::protocol::state_cycle(text@) {
            Some(n) => Some(n as usize),
            None => None,
        },
        None => None,
    }
}

fn cycle_of(state: &Option<String>) -> (r: Option<usize>)
    ensures
        r == remote_cycle(*state),
{
    match state {
        Some(text) => match crate::exec::protocol::read_cycle(text.as_str()) {
            Some(n) => Some(
                #[verifier::truncate]
                (n as usize),
            ),
            None => None,
        },
        None => None,
    }
}

impl State {
    /// The state of a program that runs elsewhere, by what a server tells: its frames, with the
    /// contents of the source files that they name, its operand stack, and its state as text.
    pub fn new_for_dap(
        frames: &Vec<RemoteFrame>,
        contents: &Vec<Option<String>>,
        variables: &Vec<RemoteVariable>,
        state: &Option<String>,
    ) -> (r: Self)
        requires
            frames@.len() == contents@.len(),
            forall|i: int|
                0 <= i < contents@.len() ==> ((#[trigger] contents@[i]) matches Some(text)
                    ==> crate::debug::source::byte_len(text@) < u32::MAX),
        ensures
            r.wf(),
            r.untouched(),
            r.config.is_bare(),
            r.debug_mode == DebugMode::RemoteDap,
            r.execution_trace.is_blank(),
            r.executor.current_stack@ == remote_stack(variables@),
            r.executor.callstack@ == remote_callstack(frames@, contents@),
            r.executor.stack_outputs.elements@ == crate::exec::trace::top_of_stack(Seq::empty()),
            r.executor.cycle == match remote_cycle(*state) {
                Some(n) => n,
                None => 0,
            },
            crate::exec::trace::memory_of(r.executor.processor) == crate::exec::trace::untouched(),
            r.executor.resume_ctx is None,
            r.executor.current_op is None,
            r.executor.current_asmop is None,
            r.executor.contexts@ == Set::<u32>::empty(),
            r.executor.root_context == 0,
            r.executor.current_context == 0,
            r.executor.recent@.len() == 0,
            !r.executor.stopped,
            r.executor.failure is None,
    {
        broadcast use vstd::std_specs::btree::group_btree_axioms;

        let callstack = CallStack::from_remote_frames(call_frames(frames, contents));
        let cycle: usize = match cycle_of(state) {
            Some(n) => n,
            None => 0,
        };
        let executor = DebugExecutor {
            processor: crate::exec::trace::idle_processor(),
            resume_ctx: None,
            current_stack: stack_values(variables),
            current_op: None,
            current_asmop: None,
            stack_outputs: StackOutputs::top_of(&Vec::new()),
            contexts: BTreeSet::new(),
            root_context: 0,
            current_context: 0,
            callstack,
            recent: VecDeque::new(),
            cycle,
            stopped: false,
            failure: None,
        };
        State::with(DebuggerConfig::new(), executor, DebugMode::RemoteDap)
    }

    /// Brings the state up to date by what a server tells. Where it does not tell the number of
    /// cycles, that stays as it is.
    pub fn refresh_from_dap(
        &mut self,
        frames: &Vec<RemoteFrame>,
        contents: &Vec<Option<String>>,
        variables: &Vec<RemoteVariable>,
        state: &Option<String>,
    )
        requires
            old(self).wf(),
            frames@.len() == contents@.len(),
            forall|i: int|
                0 <= i < contents@.len() ==> ((#[trigger] contents@[i]) matches Some(text)
                    ==> crate::debug::source::byte_len(text@) < u32::MAX),
        ensures
            final(self).wf(),
            final(self).executor.current_stack@ == remote_stack(variables@),
            final(self).executor.callstack@ == remote_callstack(frames@, contents@),
            final(self).executor.cycle == match remote_cycle(*state) {
                Some(n) => n,
                None => old(self).executor.cycle,
            },
            *final(self) == (State {
                executor: DebugExecutor {
                    current_stack: final(self).executor.current_stack,
                    callstack: final(self).executor.callstack,
                    cycle: final(self).executor.cycle,
                    ..old(self).executor
                },
                ..*old(self)
            }),
    {
        self.executor.current_stack = stack_values(variables);
        self.executor.callstack = CallStack::from_remote_frames(call_frames(frames, contents));
        if let Some(n) = cycle_of(state) {
            self.executor.cycle = n;
        }
    }
}

// ---------------------------------------------------------------------------------------------
// What holds of every state
// ---------------------------------------------------------------------------------------------

/// The arguments are pushed in their order: the last of them is on top of the stack, and the first
/// one is as far down as there are others; below them are zeros. Without arguments, the inputs are
/// pushed in their order; without either there are zeros alone. More than sixteen arguments are
/// refused.
pub proof fn the_last_argument_is_on_top(config: DebuggerConfig, i: int)
    requires
        0 <= i < 16,
    ensures
        ({
            let args = config.args@;
            &&& args.len() > 16 ==> initial_stack(config) is Err
            &&& 0 < args.len() <= 16 ==> {
                &&& initial_stack(config) matches Ok(stack)
                &&& stack.len() == 16
                &&& i < args.len() ==> stack[i] == args[args.len() - 1 - i]
                &&& i >= args.len() ==> stack[i].value == 0
            }
            &&& args.len() == 0 ==> match config.inputs {
                Some(inputs) => {
                    &&& initial_stack(config) matches Ok(stack)
                    &&& stack.len() == inputs.inputs.elements@.len()
                    &&& i < stack.len() ==> stack[i] == inputs.inputs.elements@[stack.len() - 1
                        - i]
                },
                None => {
                    &&& initial_stack(config) matches Ok(stack)
                    &&& stack.len() == 16
                    &&& stack[i].value == 0
                },
            }
        }),
{
}

/// Of the libraries with a hash the last one counts; none is found under a hash that none has.
pub proof fn the_last_library_counts(libraries: Seq<Library>, digest: Word)
    ensures
        match last_library(libraries, digest) {
            Some(library) => exists|i: int|
                {
                    &&& 0 <= i < libraries.len()
                    &&& #[trigger] libraries[i] == library
                    &&& library.digest == digest
                    &&& forall|k: int|
                        i < k < libraries.len() ==> (#[trigger] libraries[k]).digest != digest
                },
            None => forall|k: int|
                0 <= k < libraries.len() ==> (#[trigger] libraries[k]).digest != digest,
        },
    decreases libraries.len(),
{
    if libraries.len() > 0 {
        let n = libraries.len() - 1;
        if libraries[n].digest == digest {
            assert(libraries[n] == libraries.last());
        } else {
            let front = libraries.drop_last();
            the_last_library_counts(front, digest);
            match last_library(libraries, digest) {
                Some(library) => {
                    let i = choose|i: int|
                        {
                            &&& 0 <= i < front.len()
                            &&& #[trigger] front[i] == library
                            &&& library.digest == digest
                            &&& forall|k: int|
                                i < k < front.len() ==> (#[trigger] front[k]).digest != digest
                        };
                    assert(libraries[i] == library);
                    assert forall|k: int| i < k < libraries.len() implies (
                    #[trigger] libraries[k]).digest != digest by {
                        if k < n {
                            assert(front[k] == libraries[k]);
                        }
                    }
                },
                None => {
                    assert forall|k: int| 0 <= k < libraries.len() implies (
                    #[trigger] libraries[k]).digest != digest by {
                        if k < n {
                            assert(front[k] == libraries[k]);
                        }
                    }
                },
            }
        }
    }
}

/// A program can call all libraries, in their order, and behind them those that it depends on, each
/// by its hash; what it reports, and what is needed to debug it, is switched on.
pub proof fn a_prepared_program_has_its_libraries(
    executor: Executor,
    config: DebuggerConfig,
    libraries: Seq<Library>,
    dependencies: Seq<Dependency>,
    i: int,
)
    requires
        is_prepared(executor, config, libraries, dependencies),
        all_linked(libraries, dependencies),
    ensures
        executor.options.enable_tracing,
        executor.options.enable_debugging,
        initial_stack(config) == Ok::<Seq<Felt>, Seq<char>>(executor.stack.elements@),
        executor.libraries@.len() == libraries.len() + dependencies.len(),
        0 <= i < libraries.len() ==> executor.libraries@[i] == libraries[i],
        0 <= i < dependencies.len() ==> executor.libraries@[libraries.len() + i].digest
            == dependencies[i].digest,
        0 <= i < dependencies.len() ==> libraries.contains(executor.libraries@[libraries.len() + i]),
        config.inputs is None ==> crate::exec::snapshot::advice_of(executor.advice)
            == AdviceContents::none(),
        config.inputs matches Some(inputs) ==> crate::exec::snapshot::advice_of(
            executor.advice,
        ).stack == crate::exec::snapshot::advice_of(inputs.advice_inputs).stack
            && crate::exec::snapshot::advice_of(executor.advice).map
            == crate::exec::snapshot::advice_of(inputs.advice_inputs).map,
{
    if 0 <= i < dependencies.len() {
        the_last_library_counts(libraries, dependencies[i].digest);
        assert(last_library(libraries, dependencies[i].digest) is Some);
    }
    if let Some(inputs) = config.inputs {
        crate::exec::executor::no_advice_adds_nothing(
            crate::exec::snapshot::advice_of(inputs.advice_inputs),
        );
    }
}

/// Only the innermost call frame is noted as one to stop at when it is left.
pub proof fn the_innermost_frame_is_noted(stack: StackView, i: int)
    requires
        0 <= i < stack.frames.len(),
    ensures
        ({
            let after = finishing(stack);
            &&& after.frames.len() == stack.frames.len()
            &&& after.frames[i].procedure == stack.frames[i].procedure
            &&& after.frames[i].context == stack.frames[i].context
            &&& after.frames[i].display_name == stack.frames[i].display_name
            &&& i == stack.frames.len() - 1 ==> after.frames[i].finishing
            &&& i < stack.frames.len() - 1 ==> after.frames[i].finishing
                == stack.frames[i].finishing
            &&& after.contexts == stack.contexts
            &&& after.block_stack == stack.block_stack
            &&& after.trace_events == stack.trace_events
        }),
{
}

/// Breakpoints that are made anew have the numbers from zero on, and are the same in all else.
pub proof fn breakpoints_are_numbered_anew(breakpoints: Seq<Breakpoint>, cycle: usize, i: int)
    requires
        0 <= i < breakpoints.len() <= 256,
    ensures
        renumbered(breakpoints, cycle).len() == breakpoints.len(),
        renumbered(breakpoints, cycle)[i].id == i,
        renumbered(breakpoints, cycle)[i].ty == breakpoints[i].ty,
        renumbered(breakpoints, cycle)[i].creation_cycle == cycle,
{
}

/// A program can be loaded again where it is neither a transaction nor runs elsewhere.
pub proof fn only_programs_are_loaded_again(mode: DebugMode)
    ensures
        reload_refusal(mode) is None <==> mode == DebugMode::Program,
{
}

/// The base that a format shows numbers in.
pub open spec fn radix_of(format: FormatType) -> nat {
    match format {
        FormatType::Decimal => 10,
        FormatType::Hex => 16,
        FormatType::Binary => 2,
    }
}

/// Whether memory can be read at all, one value at a time.
pub open spec fn can_be_read(state: State, expr: ReadMemoryExpr) -> bool {
    state.debug_mode != DebugMode::RemoteDap && expr.count <= 1
}

/// A field element is shown as itself, as it is at its address in the context the program is in.
pub proof fn an_element_is_shown(state: State, expr: ReadMemoryExpr)
    requires
        can_be_read(state, expr),
        expr.ty is Felt,
        expr.addr.offset == 0,
    ensures
        ({
            let element = crate::exec::trace::element_at(
                state.execution_trace.memory(),
                state.executor.current_context,
                expr.addr.addr,
            );
            &&& state.memory_text(expr) matches Ok(text)
            &&& crate::text::is_numeral(text, radix_of(expr.format))
            &&& crate::text::place_value(text, radix_of(expr.format)) == element
        }),
{
    let element = crate::exec::trace::element_at(
        state.execution_trace.memory(),
        state.executor.current_context,
        expr.addr.addr,
    );
    crate::text::a_number_is_what_its_digits_stand_for(element as nat, radix_of(expr.format));
}

/// Elements are listed one after the other, each as itself, with a comma and a blank between them.
pub proof fn elements_are_separated_by_commas(
    first: Seq<u64>,
    e: u64,
    later: Seq<u64>,
    format: FormatType,
)
    ensures
        listed(Seq::empty(), format).len() == 0,
        crate::text::is_numeral(listed(seq![e], format), radix_of(format)),
        crate::text::place_value(listed(seq![e], format), radix_of(format)) == e,
        first.len() > 0 && later.len() > 0 ==> listed(first + later, format) == listed(
            first,
            format,
        ) + seq![',', ' '] + listed(later, format),
    decreases later.len(),
{
    reveal_strlit(", ");
    assert(", "@ =~= seq![',', ' ']);
    crate::text::a_number_is_what_its_digits_stand_for(e as nat, radix_of(format));
    if first.len() > 0 && later.len() > 0 {
        let all = first + later;
        assert(all.drop_last() =~= first + later.drop_last());
        if later.len() == 1 {
            assert(all.drop_last() =~= first);
        } else {
            elements_are_separated_by_commas(first, e, later.drop_last(), format);
            assert(listed(all, format) =~= listed(first, format) + seq![',', ' '] + listed(
                later,
                format,
            ));
        }
    }
}

/// A word is shown as its four elements in square brackets, as they are in the root context from its
/// address on.
pub proof fn a_word_is_shown(state: State, expr: ReadMemoryExpr)
    requires
        can_be_read(state, expr),
        expr.ty is Word,
        expr.addr.offset == 0,
        expr.addr.addr % 4 == 0,
    ensures
        state.memory_text(expr) == Ok::<Seq<char>, Seq<char>>(
            seq!['['] + listed(
                state.execution_trace.elements(
                    state.execution_trace.root_context,
                    expr.addr.addr,
                    4,
                ),
                expr.format,
            ) + seq![']'],
        ),
{
    reveal_strlit("[");
    reveal_strlit("]");
    assert("["@ =~= seq!['[']);
    assert("]"@ =~= seq![']']);
    crate::exec::trace::a_word_is_four_elements(
        state.execution_trace,
        state.execution_trace.root_context,
        expr.addr.addr,
    );
}

/// The number that a value has in memory, by the lower halves of its elements, the first of which
/// counts the most.
pub open spec fn number_in_memory(state: State, addr: u32, size: nat) -> int {
    let ctx = state.executor.current_context;
    let memory = state.execution_trace.memory();
    let first = crate::exec::trace::element_at(memory, ctx, addr) % 0x1_0000_0000;
    if size == 8 {
        first * 0x1_0000_0000 + crate::exec::trace::element_at(memory, ctx, (addr + 1) as u32)
            % 0x1_0000_0000
    } else if size == 4 {
        first as int
    } else if size == 2 {
        (first / 0x1_0000) as int
    } else {
        (first / 0x100_0000) as int
    }
}

proof fn bytes_make_the_number_in_memory(state: State, addr: u32, size: nat)
    requires
        size == 1 || size == 2 || size == 4 || size == 8,
        size == 8 ==> addr < u32::MAX,
    ensures
        ({
            let bytes = crate::debug::memory::leading_bytes(
                state.execution_trace.elements(
                    state.executor.current_context,
                    addr,
                    (size + 3) / 4,
                ),
                size,
            );
            &&& bytes.len() == size
            &&& crate::debug::memory::be_number(bytes) == number_in_memory(state, addr, size)
        }),
{
    let ctx = state.executor.current_context;
    let n: nat = (size + 3) / 4;
    let elements = state.execution_trace.elements(ctx, addr, n);
    let e = elements[0];
    assert((0int as u32) == 0);
    assert(e == crate::exec::trace::element_at(state.execution_trace.memory(), ctx, addr));
    let bytes = crate::debug::memory::leading_bytes(elements, size);
    let low = e as nat % 0x1_0000_0000;
    let b = crate::debug::memory::be_bytes(low);
    crate::debug::memory::elements_have_four_bytes_each(seq![e], e, Seq::empty());
    assert(seq![e].drop_last() =~= Seq::<u64>::empty());
    reveal_with_fuel(crate::debug::memory::element_bytes, 2);
    assert(crate::debug::memory::element_bytes(seq![e]) =~= b);
    if size == 8 {
        let f = elements[1];
        assert((1int as u32) == 1);
        assert(elements =~= seq![e] + seq![f]);
        crate::debug::memory::elements_have_four_bytes_each(seq![e], f, seq![f]);
        let c = crate::debug::memory::be_bytes(f as nat % 0x1_0000_0000);
        assert(seq![f].drop_last() =~= Seq::<u64>::empty());
        assert(crate::debug::memory::element_bytes(seq![f]) =~= c);
        assert(bytes =~= b + c);
        joined_number(b, c);
        crate::debug::memory::be_bytes_make_the_number(low);
        crate::debug::memory::be_bytes_make_the_number(f as nat % 0x1_0000_0000);
    } else {
        assert(elements =~= seq![e]);
        crate::debug::memory::be_bytes_make_the_number(low);
        if size == 4 {
            assert(bytes =~= b);
        } else {
            assert(bytes =~= b.take(size as int));
            assert(b.take(1).drop_last() =~= Seq::<u8>::empty());
            assert(b.take(2).drop_last() =~= b.take(1));
            reveal_with_fuel(crate::debug::memory::be_number, 3);
        }
    }
}

proof fn joined_number(b: Seq<u8>, c: Seq<u8>)
    requires
        c.len() == 4,
    ensures
        crate::debug::memory::be_number(b + c) == crate::debug::memory::be_number(b)
            * 0x1_0000_0000 + crate::debug::memory::be_number(c),
{
    let all = b + c;
    assert(all.drop_last() =~= b + c.take(3));
    assert((b + c.take(3)).drop_last() =~= b + c.take(2));
    assert((b + c.take(2)).drop_last() =~= b + c.take(1));
    assert((b + c.take(1)).drop_last() =~= b);
    assert(c.drop_last() =~= c.take(3));
    assert(c.take(3).drop_last() =~= c.take(2));
    assert(c.take(2).drop_last() =~= c.take(1));
    assert(c.take(1).drop_last() =~= Seq::<u8>::empty());
    reveal_with_fuel(crate::debug::memory::be_number, 5);
}

/// A number without sign is shown as it is in memory, in the context the program is in; a signed one
/// is shown so by its bits where it is not shown in decimal.
pub proof fn a_number_in_memory_is_shown(state: State, expr: ReadMemoryExpr)
    requires
        can_be_read(state, expr),
        expr.addr.offset == 0,
        expr.addr.addr < u32::MAX,
        expr.ty is U8 || expr.ty is U16 || expr.ty is U32 || expr.ty is U64 || (
        crate::debug::memory::signed_bits(expr.ty) > 0 && !(expr.format is Decimal)),
    ensures
        ({
            let n = number_in_memory(state, expr.addr.addr, expr.ty.size());
            &&& state.memory_text(expr) matches Ok(text)
            &&& crate::text::is_numeral(text, radix_of(expr.format))
            &&& crate::text::place_value(text, radix_of(expr.format)) == n
        }),
{
    crate::exec::trace::the_last_address_counts(expr.addr.addr, expr.ty.felts());
    bytes_make_the_number_in_memory(state, expr.addr.addr, expr.ty.size());
    let bytes = crate::debug::memory::leading_bytes(
        state.execution_trace.elements(
            state.executor.current_context,
            expr.addr.addr,
            expr.ty.felts(),
        ),
        expr.ty.size(),
    );
    crate::debug::memory::a_number_is_shown_as_itself(expr.ty, bytes, expr.format);
}

/// A signed number of `b` bits is shown in decimal as the only number from `-2^(b-1)` up to
/// `2^(b-1)` that differs from the one in memory by a multiple of `2^b`.
pub proof fn a_signed_number_in_memory_is_shown(state: State, expr: ReadMemoryExpr, v: int)
    requires
        can_be_read(state, expr),
        expr.addr.offset == 0,
        expr.addr.addr < u32::MAX,
        expr.format is Decimal,
        crate::debug::memory::signed_bits(expr.ty) > 0,
        -vstd::arithmetic::power::pow(
            2,
            (crate::debug::memory::signed_bits(expr.ty) - 1) as nat,
        ) <= v,
        v < vstd::arithmetic::power::pow(
            2,
            (crate::debug::memory::signed_bits(expr.ty) - 1) as nat,
        ),
        (v - number_in_memory(state, expr.addr.addr, expr.ty.size())) % vstd::arithmetic::power::pow(
            2,
            crate::debug::memory::signed_bits(expr.ty),
        ) == 0,
    ensures
        state.memory_text(expr) matches Ok(text) && crate::text::shows_number(text, v),
{
    crate::exec::trace::the_last_address_counts(expr.addr.addr, expr.ty.felts());
    bytes_make_the_number_in_memory(state, expr.addr.addr, expr.ty.size());
    let bytes = crate::debug::memory::leading_bytes(
        state.execution_trace.elements(
            state.executor.current_context,
            expr.addr.addr,
            expr.ty.felts(),
        ),
        expr.ty.size(),
    );
    crate::debug::memory::a_signed_number_is_shown_with_its_sign(expr.ty, bytes, v);
}

/// Memory is not read where the program runs elsewhere, where more than one value is asked for, where
/// a value does not start with an element, or a word with a word, and where it does not end before
/// memory does. Nor is a value of any other type.
pub proof fn what_cannot_be_read_is_refused(state: State, expr: ReadMemoryExpr)
    requires
        expr.ty.felts() <= 0x1_0000_0000,
    ensures
        state.memory_text(expr) is Err <==> {
            ||| state.debug_mode == DebugMode::RemoteDap
            ||| expr.count > 1
            ||| expr.addr.offset != 0
            ||| expr.ty is Word && expr.addr.addr % 4 != 0
            ||| expr.ty is Other
            ||| !(expr.ty is Word) && expr.addr.addr + expr.ty.felts() > 0x1_0000_0000
        },
{
    crate::exec::trace::the_last_address_counts(expr.addr.addr, expr.ty.felts());
}

/// A line or a column that a server tells of stays as it is where it is at least one, and counts as
/// the first one otherwise.
pub proof fn lines_count_from_one(n: i64)
    requires
        n <= u32::MAX,
    ensures
        n >= 1 ==> from_one(n) == n,
        n < 1 ==> from_one(n) == 1,
{
}

/// A frame stands on the line that the server tells of, over the whole of it, in the file that the
/// server names, at the column that it tells of.
pub proof fn a_remote_frame_stands_on_its_line(
    frame: RemoteFrameView,
    path: Seq<char>,
    front: Seq<char>,
    line: Seq<char>,
    back: Seq<char>,
)
    requires
        frame.path == Some(path),
        1 <= frame.line <= u32::MAX,
        1 <= frame.column <= u32::MAX,
        front.len() == 0 || front.last() == '\n',
        forall|i: int| 0 <= i < line.len() - 1 ==> (#[trigger] line[i]) != '\n',
        if line.len() > 0 && line.last() == '\n' {
            true
        } else {
            back.len() == 0
        },
        frame.line == front.filter(|c: char| c == '\n').len() + 1,
    ensures
        frame_place(frame, Some(front + line + back)) == Some(
            ResolvedView {
                uri: path,
                line: frame.line as u32,
                col: frame.column as u32,
                start: vstd::utf8::encode_utf8(front).len() as u32,
                end: vstd::utf8::encode_utf8(front + line).len() as u32,
            },
        ),
{
    crate::debug::source::a_line_reaches_to_its_break(front, line, back);
    assert(from_one(frame.line) == frame.line);
}

/// A frame stands nowhere where the server names no file, or the file cannot be read.
pub proof fn a_frame_without_a_file_stands_nowhere(
    frame: RemoteFrameView,
    content: Option<Seq<char>>,
)
    requires
        frame.path is None || content is None,
    ensures
        frame_place(frame, content) is None,
{
}

/// The frames of a program that runs elsewhere are those that the server tells of, in their order and
/// by their names.
pub proof fn remote_frames_are_those_of_the_server(
    frames: Seq<RemoteFrame>,
    contents: Seq<Option<String>>,
    i: int,
)
    requires
        0 <= i < frames.len(),
    ensures
        ({
            let stack = remote_callstack(frames, contents);
            let place = frame_place(frames[i]@, crate::debug::op::text_view(contents[i]));
            &&& stack.frames.len() == frames.len()
            &&& stack.frames[i].procedure == Some(frames[i].name@)
            &&& stack.frames[i].display_name is None
            &&& !stack.frames[i].finishing
            &&& forall|sources: crate::debug::source::SourcesView|
                #[trigger] stack.frames[i].last_resolved(sources) == place
            &&& stack.block_stack.len() == 0
        }),
{
    let stack = remote_callstack(frames, contents);
    let place = frame_place(frames[i]@, crate::debug::op::text_view(contents[i]));
    assert forall|sources: crate::debug::source::SourcesView| #[trigger]
        stack.frames[i].last_resolved(sources) == place by {
        crate::debug::stacktrace::a_remote_frame_shows_its_place(
            Some(frames[i].name@),
            place,
            sources,
        );
    }
}

/// A value that a server tells of is the number it shows, reduced to an element of the field; what
/// shows no number counts as zero.
pub proof fn a_remote_value_is_its_number(text: Seq<char>)
    ensures
        ({
            let digits = crate::text::without_plus(text);
            let n = crate::text::place_value(digits, 10);
            if text.len() > 0 && crate::text::all_digits(digits) && n <= u64::MAX {
                element_of(text) == n % 0xffff_ffff_0000_0001
            } else {
                element_of(text) == 0
            }
        }),
{
    let digits = crate::text::without_plus(text);
    crate::text::a_number_is_read_digit_by_digit(text, u64::MAX as nat);
    crate::text::digits_stand_for_no_less(digits);
    match crate::text::number_value(text, u64::MAX as nat) {
        Err(crate::text::NumberError::InvalidDigit) => {
            let k = choose|k: int|
                {
                    &&& 0 <= k < digits.len()
                    &&& crate::text::all_digits(#[trigger] digits.take(k))
                    &&& crate::text::place_value(digits.take(k), 10) <= u64::MAX
                    &&& !('0' <= digits[k] && digits[k] <= '9')
                };
            assert(!crate::text::all_digits(digits)) by {
                assert(!('0' <= digits[k] && digits[k] <= '9'));
            }
        },
        _ => {},
    }
}

/// A state in which nothing was done has stopped, without breakpoints, and has not failed.
pub proof fn nothing_was_done_at_first(state: State)
    requires
        state.untouched(),
    ensures
        state.stopped && state.execution_failed is None,
        state.breakpoints@.len() == 0 && state.breakpoints_hit@.len() == 0,
        state.ids().len() == 0,
        state.free_id() == Some(0u8),
        state.input_mode == InputMode::Normal,
{
    assert(state.ids().len() == 0);
    assert(!state.ids().to_set().contains(0u8));
}

/// The number for another breakpoint is not in use, by a breakpoint that waits or by one that was
/// hit; and there is one as long as fewer than 255 are in use.
pub proof fn a_new_number_is_in_use_nowhere(state: State, id: u8)
    ensures
        state.free_id() == Some(id) ==> (forall|i: int|
            0 <= i < state.breakpoints@.len() ==> (#[trigger] state.breakpoints@[i]).id != id) && (
        forall|i: int|
            0 <= i < state.breakpoints_hit@.len() ==> (#[trigger] state.breakpoints_hit@[i]).id
                != id),
        state.breakpoints@.len() + state.breakpoints_hit@.len() < 255 ==> state.free_id() is Some,
{
    let used = state.ids().to_set();
    let ids = crate::ui::breakpoint::ids_of(state.breakpoints@);
    let hit = crate::ui::breakpoint::ids_of(state.breakpoints_hit@);
    crate::ui::breakpoint::found_is_free(used, state.next_breakpoint_id, MOST_TRIES as nat);
    assert forall|i: int| 0 <= i < state.breakpoints@.len() implies used.contains(
        (#[trigger] state.breakpoints@[i]).id,
    ) by {
        assert(state.ids()[i] == state.breakpoints@[i].id);
    }
    assert forall|i: int| 0 <= i < state.breakpoints_hit@.len() implies used.contains(
        (#[trigger] state.breakpoints_hit@[i]).id,
    ) by {
        assert(state.ids()[ids.len() + i] == state.breakpoints_hit@[i].id);
    }
    state.ids().lemma_cardinality_of_set();
    if used.len() < MOST_TRIES {
        crate::ui::breakpoint::there_is_room(used, state.next_breakpoint_id);
    }
}

/// A transaction starts with its stack, filled up with zeros, and with the advice that it was given;
/// it reports what it does, and has no libraries of its own.
pub proof fn a_transaction_has_what_it_was_given(
    executor: Executor,
    stack: Seq<Felt>,
    given: AdviceContents,
    i: int,
)
    requires
        is_prepared_for(executor, stack, given),
        stack.len() <= 16,
    ensures
        executor.stack.elements@.len() == 16,
        0 <= i < stack.len() ==> executor.stack.elements@[i] == stack[i],
        stack.len() <= i < 16 ==> executor.stack.elements@[i].value == 0,
        executor.options.enable_tracing && executor.options.enable_debugging,
        executor.libraries@.len() == 0,
        crate::exec::snapshot::advice_of(executor.advice).stack == given.stack,
        crate::exec::snapshot::advice_of(executor.advice).map == given.map,
{
    let advice = crate::exec::snapshot::advice_of(executor.advice);
    assert(advice.stack =~= given.stack);
    assert(advice.map =~= given.map);
}

/// The number of cycles is the one that the server names, where it names one.
pub proof fn the_server_counts_the_cycles(text: String, cycle: usize, stopped: bool)
    ensures
        remote_cycle(None) is None,
        crate::exec::json::json_parsed(text@) is Err ==> remote_cycle(Some(text)) is None,
        crate::exec::json::json_parsed(text@) == Ok::<crate::exec::json::JsonView, Seq<char>>(
            crate::exec::protocol::state_value(cycle, stopped),
        ) ==> remote_cycle(Some(text)) == Some(cycle),
{
    if crate::exec::json::json_parsed(text@) == Ok::<crate::exec::json::JsonView, Seq<char>>(
        crate::exec::protocol::state_value(cycle, stopped),
    ) {
        crate::exec::protocol::the_cycle_reads_back(text@, cycle, stopped);
    }
}

/// A line that a server counts from zero is the first one.
pub proof fn a_line_before_the_first_is_the_first(
    frame: RemoteFrameView,
    first: RemoteFrameView,
    content: Seq<char>,
)
    requires
        from_one(frame.line) <= 1,
        first == (RemoteFrameView { line: 1, ..frame }),
    ensures
        match (frame_place(frame, Some(content)), frame_place(first, Some(content))) {
            (Some(a), Some(b)) => a.uri == b.uri && a.start == b.start && a.end == b.end,
            (None, None) => true,
            _ => false,
        },
{
}

} // verus!
