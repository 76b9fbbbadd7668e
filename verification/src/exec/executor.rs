//! Setting up a program to be run, and reporting how it failed.
use std::collections::{BTreeMap, BTreeSet, VecDeque};
use std::sync::Arc;

use miden_core::advice::AdviceInputs;
use miden_core::mast::MastForest;
use miden_core::program::Program;
use miden_processor::{FastProcessor, ResumeContext};
use vstd::prelude::*;
use vstd::string::*;

use crate::debug::op::TraceEvent;
use crate::debug::source::{ResolvedLocation, SourceManager};
use crate::debug::stacktrace::CallStack;
use crate::exec::advice::{AdviceMutation, Felt, Record, Word};
use crate::exec::host::DebuggerHost;
use crate::exec::options::{RunOptions, StackInputs};
use crate::exec::snapshot::AdviceContents;
use crate::exec::state::{DebugExecutor, ExecutorState};
use crate::exec::trace::StackOutputs;

verus! {

// ---------------------------------------------------------------------------------------------
// Starting the virtual machine
// ---------------------------------------------------------------------------------------------

/// The limits as the virtual machine takes them.
#[verifier::external_type_specification]
#[verifier::external_body]
pub struct ExExecutionOptions(miden_processor::ExecutionOptions);

/// What limits of the virtual machine say.
pub uninterp spec fn limits_of(limits: miden_processor::ExecutionOptions) -> RunOptions;

/// The limits as the virtual machine takes them.
///
/// Trusted: `ExecutionOptions::new` of `miden-processor` and its setters, which keep the values
/// they are given; accepted limits are not refused. That `new` rounds the expected number of
/// cycles makes no difference to one that is rounded.
#[verifier::external_body]
pub(crate) fn limits(options: RunOptions) -> (r: miden_processor::ExecutionOptions)
    requires
        options.wf(),
    ensures
        limits_of(r) == options,
{
    let o = options;
    let (max, expected, size) = (o.max_cycles, o.expected_cycles, o.core_trace_fragment_size);
    let (tracing, debugging) = (o.enable_tracing, o.enable_debugging);
    miden_processor::ExecutionOptions::new(Some(max), expected, size, tracing, debugging)
        .expect("the limits are accepted")
        .with_max_adv_map_value_size(o.max_adv_map_value_size)
        .with_max_adv_map_elements(o.max_adv_map_elements)
        .with_max_hash_len_bytes(o.max_hash_len_bytes)
        .with_max_num_continuations(o.max_num_continuations)
        .with_max_stack_depth(o.max_stack_depth)
        .expect("the limits are accepted")
}

/// What the virtual machine makes of a program, of these inputs and limits: a processor that is
/// ready to run it, with what there is to do; or why it refuses to.
pub uninterp spec fn started(
    stack: Seq<Felt>,
    advice: AdviceContents,
    limits: RunOptions,
    program: Program,
) -> Result<(FastProcessor, ResumeContext), Seq<char>>;

/// Whether a result is the outcome of starting a program.
pub open spec fn is_outcome(
    r: Result<(FastProcessor, ResumeContext), String>,
    outcome: Result<(FastProcessor, ResumeContext), Seq<char>>,
) -> bool {
    match r {
        Ok(ready) => outcome == Ok::<_, Seq<char>>(ready),
        Err(m) => outcome == Err::<(FastProcessor, ResumeContext), _>(m@),
    }
}

/// Whether a processor has this operand stack, and has not run: it is in the root context, and its
/// memory is empty.
pub open spec fn is_fresh(processor: FastProcessor, stack: Seq<Felt>) -> bool {
    &&& crate::exec::trace::memory_of(processor) == crate::exec::trace::untouched()
    &&& crate::exec::trace::stack_of(processor) == stack.map_values(|e: Felt| e.value)
    &&& crate::exec::trace::context_of(processor) == 0
}

/// Starts a program.
///
/// Trusted: `FastProcessor::new`, `with_advice`, `with_options` and `get_initial_resume_context` of
/// `miden-processor`. What they make of a program is named, not described: they refuse advice that
/// is over the limits. Nothing is run, so that the operand stack is the one that is given, the
/// context is the root, and the memory is empty.
#[verifier::external_body]
pub(crate) fn start(
    stack: &StackInputs,
    advice: AdviceInputs,
    limits: miden_processor::ExecutionOptions,
    program: &Program,
) -> (r: Result<(FastProcessor, ResumeContext), String>)
    requires
        StackInputs::valid(stack.elements@),
    ensures
        is_outcome(
            r,
            started(
                stack.elements@,
                crate::exec::snapshot::advice_of(advice),
                limits_of(limits),
                *program,
            ),
        ),
        r matches Ok((processor, _)) ==> is_fresh(processor, stack.elements@),
{
    let felts = stack.elements.iter().map(|e| miden_core::Felt::new_unchecked(e.value));
    let stack = miden_core::program::StackInputs::new(&felts.collect::<Vec<_>>());
    let processor = FastProcessor::new(stack.expect("the stack holds sixteen elements"))
        .with_advice(advice)
        .and_then(|p| p.with_options(limits));
    let mut processor = processor.map_err(|e| e.to_string())?;
    let context = processor.get_initial_resume_context(program).map_err(|e| e.to_string())?;
    Ok((processor, context))
}

/// The limits that apply where none are given.
///
/// Trusted: `ExecutionOptions::default` of `miden-processor`, and what its accessors give.
#[verifier::external_body]
fn usual_limits() -> (r: RunOptions)
    ensures
        r == RunOptions::usual(),
{
    let o = miden_processor::ExecutionOptions::default();
    RunOptions {
        max_cycles: o.max_cycles(),
        expected_cycles: o.expected_cycles(),
        core_trace_fragment_size: o.core_trace_fragment_size(),
        enable_tracing: o.enable_tracing(),
        enable_debugging: o.enable_debugging(),
        max_adv_map_value_size: o.max_adv_map_value_size(),
        max_adv_map_elements: o.max_adv_map_elements(),
        max_hash_len_bytes: o.max_hash_len_bytes(),
        max_num_continuations: o.max_num_continuations(),
        max_stack_depth: o.max_stack_depth(),
    }
}

impl RunOptions {
    /// The limits that apply where none are given.
    pub open spec fn usual() -> RunOptions {
        RunOptions {
            max_cycles: 0x2000_0000,
            expected_cycles: 64,
            core_trace_fragment_size: 4096,
            enable_tracing: false,
            enable_debugging: false,
            max_adv_map_value_size: 0x2_0000,
            max_adv_map_elements: 0x10_0000,
            max_hash_len_bytes: 0x10_0000,
            max_num_continuations: 0x1_0000,
            max_stack_depth: 6615,
        }
    }
}

/// No advice.
///
/// Trusted: `AdviceInputs::default` of `miden-core`. The stack and the map are empty; the store
/// holds the nodes of the empty subtrees of a tree of depth 255, and no other ones.
#[verifier::external_body]
fn no_advice() -> (r: AdviceInputs)
    ensures
        crate::exec::snapshot::advice_of(r) == AdviceContents::none(),
{
    AdviceInputs::default()
}

/// The same advice once more.
///
/// Trusted: `AdviceInputs::clone` of `miden-core`.
#[verifier::external_body]
pub(crate) fn copy_advice(advice: &AdviceInputs) -> (r: AdviceInputs)
    ensures
        crate::exec::snapshot::advice_of(r) == crate::exec::snapshot::advice_of(*advice),
{
    advice.clone()
}

/// Advice put together: stacks one after the other; in the map and the store, what comes later
/// counts.
pub open spec fn advice_joined(first: AdviceContents, later: AdviceContents) -> AdviceContents {
    AdviceContents {
        stack: first.stack + later.stack,
        map: first.map.union_prefer_right(later.map),
        nodes: first.nodes.union_prefer_right(later.nodes),
    }
}

/// Where advice has the empty subtrees, as stores have from the start, it is not changed by being
/// added to no advice.
pub proof fn no_advice_adds_nothing(given: AdviceContents)
    ensures
        advice_joined(AdviceContents::none(), given).stack == given.stack,
        advice_joined(AdviceContents::none(), given).map == given.map,
        AdviceContents::none().nodes.dom().subset_of(given.nodes.dom()) ==> advice_joined(
            AdviceContents::none(),
            given,
        ) == given,
{
    let joined = advice_joined(AdviceContents::none(), given);
    assert(joined.stack =~= given.stack);
    assert(joined.map =~= given.map);
    if AdviceContents::none().nodes.dom().subset_of(given.nodes.dom()) {
        assert(joined.nodes =~= given.nodes);
    }
}

/// Adds advice.
///
/// Trusted: `AdviceInputs::extend` of `miden-core`, which appends to the stack, and inserts into the
/// map and the store, where an entry with the same key is replaced.
#[verifier::external_body]
fn add_advice(advice: &mut AdviceInputs, more: AdviceInputs)
    ensures
        crate::exec::snapshot::advice_of(*final(advice)) == advice_joined(
            crate::exec::snapshot::advice_of(*old(advice)),
            crate::exec::snapshot::advice_of(more),
        ),
{
    advice.extend(more);
}

// ---------------------------------------------------------------------------------------------
// Libraries
// ---------------------------------------------------------------------------------------------

/// A library: its code, and the hash it is known by.
pub struct Library {
    pub digest: Word,
    pub forest: Arc<MastForest>,
}

impl Clone for Library {
    fn clone(&self) -> (r: Self)
        ensures
            r == *self,
    {
        Library { digest: self.digest, forest: Arc::clone(&self.forest) }
    }
}

/// Something that a package depends on.
pub struct Dependency {
    pub digest: Word,
}

/// What stands behind a dependency.
pub enum ResolvedDependency {
    Library(Library),
    /// A package, with its library where it is one.
    Package { name: String, library: Option<Library> },
}

/// What stands behind each hash.
pub struct DependencyResolver {
    entries: Vec<(Word, ResolvedDependency)>,
}

/// The last of these entries with a hash.
pub open spec fn last_entry(entries: Seq<(Word, ResolvedDependency)>, digest: Word) -> Option<
    ResolvedDependency,
>
    decreases entries.len(),
{
    if entries.len() == 0 {
        None
    } else if entries.last().0 == digest {
        Some(entries.last().1)
    } else {
        last_entry(entries.drop_last(), digest)
    }
}

impl DependencyResolver {
    /// What stands behind a hash: what was added for it last.
    pub closed spec fn lookup(&self, digest: Word) -> Option<ResolvedDependency> {
        last_entry(self.entries@, digest)
    }

    /// A resolver that knows nothing.
    pub fn new() -> (r: Self)
        ensures
            forall|digest: Word| (#[trigger] r.lookup(digest)) is None,
    {
        DependencyResolver { entries: Vec::new() }
    }

    /// Adds what stands behind a hash, in place of what stood there.
    pub fn add(&mut self, digest: Word, dependency: ResolvedDependency)
        ensures
            final(self).lookup(digest) == Some(dependency),
            forall|other: Word|
                other != digest ==> #[trigger] final(self).lookup(other) == old(self).lookup(other),
    {
        self.entries.push((digest, dependency));
        proof {
            assert(self.entries@.drop_last() =~= old(self).entries@);
        }
    }

    /// What stands behind a hash.
    pub fn resolve(&self, digest: Word) -> (r: Option<&ResolvedDependency>)
        ensures
            match r {
                Some(dependency) => self.lookup(digest) == Some(*dependency),
                None => self.lookup(digest) is None,
            },
    {
        let mut i: usize = self.entries.len();
        proof {
            assert(self.entries@.take(i as int) =~= self.entries@);
        }
        while i > 0
            invariant
                i <= self.entries@.len(),
                self.lookup(digest) == last_entry(self.entries@.take(i as int), digest),
            decreases i,
        {
            i -= 1;
            proof {
                assert(self.entries@.take(i + 1).drop_last() =~= self.entries@.take(i as int));
            }
            if self.entries[i].0 == digest {
                return Some(&self.entries[i].1);
            }
        }
        None
    }
}

// ---------------------------------------------------------------------------------------------
// The executor
// ---------------------------------------------------------------------------------------------

/// What a program is run with.
pub struct ExecutionConfig {
    pub inputs: StackInputs,
    pub advice_inputs: AdviceInputs,
    pub options: RunOptions,
}

impl ExecutionConfig {
    pub open spec fn wf(&self) -> bool {
        StackInputs::valid(self.inputs.elements@) && self.options.wf()
    }
}

/// Sets up a program to be run: either one cycle at a time, or to its end.
pub struct Executor {
    pub stack: StackInputs,
    pub advice: AdviceInputs,
    pub options: RunOptions,
    pub libraries: Vec<Library>,
    pub dependency_resolver: DependencyResolver,
}

/// The handler that notes down what a program reports.
pub const NOTING_HANDLER: usize = 0;

/// Whether these dependencies are all known, up to the first package that is no library.
pub open spec fn dependencies_known(
    resolver: DependencyResolver,
    dependencies: Seq<Dependency>,
) -> bool
    decreases dependencies.len(),
{
    if dependencies.len() == 0 {
        true
    } else {
        match resolver.lookup(dependencies[0].digest) {
            None => false,
            Some(ResolvedDependency::Package { library: None, .. }) => true,
            Some(_) => dependencies_known(resolver, dependencies.skip(1)),
        }
    }
}

/// The libraries behind these dependencies, up to the first package that is no library; and that
/// package, if there is one.
pub open spec fn dependency_libraries(
    resolver: DependencyResolver,
    dependencies: Seq<Dependency>,
) -> (Seq<Library>, Option<Seq<char>>)
    decreases dependencies.len(),
{
    if dependencies.len() == 0 {
        (Seq::empty(), None)
    } else {
        let (others, culprit) = dependency_libraries(resolver, dependencies.skip(1));
        match resolver.lookup(dependencies[0].digest) {
            Some(ResolvedDependency::Library(library)) => (seq![library] + others, culprit),
            Some(ResolvedDependency::Package { library: Some(library), .. }) => (
                seq![library] + others,
                culprit,
            ),
            Some(ResolvedDependency::Package { name, library: None }) => (
                Seq::empty(),
                Some(name@),
            ),
            None => (Seq::empty(), None),
        }
    }
}

/// The code of some libraries.
pub open spec fn library_forests(libraries: Seq<Library>) -> Seq<Arc<MastForest>> {
    libraries.map_values(|l: Library| l.forest)
}

impl Executor {
    /// The stack holds elements of the field, and the limits are accepted.
    pub open spec fn wf(&self) -> bool {
        StackInputs::valid(self.stack.elements@) && self.options.wf()
    }

    /// Whether the executor was made with these arguments on the operand stack, and nothing was
    /// added: it has no advice, the usual limits, and no libraries.
    pub open spec fn is_new(&self, args: Seq<Felt>) -> bool {
        &&& self.wf()
        &&& self.stack.elements@ == crate::exec::options::padded(args)
        &&& crate::exec::snapshot::advice_of(self.advice) == AdviceContents::none()
        &&& self.options == (RunOptions {
            enable_tracing: true,
            enable_debugging: true,
            ..RunOptions::usual()
        })
        &&& self.libraries@.len() == 0
        &&& forall|digest: Word| (#[trigger] self.dependency_resolver.lookup(digest)) is None
    }

    /// An executor with these arguments on the operand stack. There is room for sixteen.
    pub fn new(args: Vec<Felt>) -> (r: Self)
        requires
            args@.len() <= crate::exec::trace::STACK_DEPTH,
            forall|i: int| 0 <= i < args@.len() ==> Felt::valid(#[trigger] args@[i]),
        ensures
            r.is_new(args@),
    {
        let options = usual_limits();
        proof {
            usual_is_accepted();
        }
        let inputs = match StackInputs::new(&args) {
            Ok(inputs) => inputs,
            Err(_) => StackInputs { elements: Vec::new() },
        };
        Executor::from_config(ExecutionConfig { inputs, advice_inputs: no_advice(), options })
    }

    /// An executor with this configuration. What a program reports, and what is needed to debug
    /// it, is always switched on.
    pub fn from_config(config: ExecutionConfig) -> (r: Self)
        requires
            config.wf(),
        ensures
            r.wf(),
            r.stack == config.inputs,
            r.advice == config.advice_inputs,
            r.options == (RunOptions {
                enable_tracing: true,
                enable_debugging: true,
                ..config.options
            }),
            r.libraries@.len() == 0,
            forall|digest: Word| (#[trigger] r.dependency_resolver.lookup(digest)) is None,
    {
        let options = RunOptions {
            enable_tracing: true,
            enable_debugging: true,
            ..config.options
        };
        Executor {
            stack: config.inputs,
            advice: config.advice_inputs,
            options,
            libraries: Vec::new(),
            dependency_resolver: DependencyResolver::new(),
        }
    }

    /// Adds the libraries that a package depends on. A package among them must be a library.
    pub fn with_dependencies(&mut self, dependencies: &Vec<Dependency>) -> (r: Result<(), String>)
        requires
            dependencies_known(old(self).dependency_resolver, dependencies@),
        ensures
            ({
                let (libraries, culprit) = dependency_libraries(
                    old(self).dependency_resolver,
                    dependencies@,
                );
                &&& final(self).libraries@ == old(self).libraries@ + libraries
                &&& *final(self) == (Executor { libraries: final(self).libraries, ..*old(self) })
                &&& match culprit {
                    Some(name) => r matches Err(m) && m@ == "expected package "@ + name
                        + " to contain library"@,
                    None => r is Ok,
                }
            }),
    {
        let mut i: usize = 0;
        let ghost resolver = self.dependency_resolver;
        let ghost whole = dependency_libraries(resolver, dependencies@);
        proof {
            assert(dependencies@.skip(0) =~= dependencies@);
            assert(self.libraries@ + whole.0 =~= old(self).libraries@ + whole.0);
        }
        while i < dependencies.len()
            invariant
                i <= dependencies@.len(),
                resolver == self.dependency_resolver,
                *self == (Executor { libraries: self.libraries, ..*old(self) }),
                dependencies_known(resolver, dependencies@.skip(i as int)),
                whole == dependency_libraries(old(self).dependency_resolver, dependencies@),
                self.libraries@ + dependency_libraries(resolver, dependencies@.skip(i as int)).0
                    == old(self).libraries@ + whole.0,
                dependency_libraries(resolver, dependencies@.skip(i as int)).1 == whole.1,
            decreases dependencies@.len() - i,
        {
            let ghost behind = dependency_libraries(resolver, dependencies@.skip(i + 1)).0;
            let ghost before = self.libraries@;
            proof {
                assert(dependencies@.skip(i as int)[0] == dependencies@[i as int]);
                assert(dependencies@.skip(i as int).skip(1) =~= dependencies@.skip(i + 1));
            }
            match self.dependency_resolver.resolve(dependencies[i].digest) {
                Some(ResolvedDependency::Library(library)) => {
                    let library = library.clone();
                    proof {
                        assert(before + (seq![library] + behind) =~= before.push(library) + behind);
                    }
                    self.libraries.push(library);
                },
                Some(ResolvedDependency::Package { library: Some(library), .. }) => {
                    let library = library.clone();
                    proof {
                        assert(before + (seq![library] + behind) =~= before.push(library) + behind);
                    }
                    self.libraries.push(library);
                },
                Some(ResolvedDependency::Package { name, library: None }) => {
                    let mut m = "expected package ".to_owned();
                    m.append(name.as_str());
                    m.append(" to contain library");
                    proof {
                        assert(self.libraries@ + Seq::empty() =~= self.libraries@);
                    }
                    return Err(m);
                },
                None => {},
            }
            i += 1;
        }
        proof {
            assert(self.libraries@ + Seq::empty() =~= self.libraries@);
        }
        Ok(())
    }

    /// Adds to the advice that the program starts with.
    pub fn with_advice_inputs(&mut self, advice: AdviceInputs)
        ensures
            crate::exec::snapshot::advice_of(final(self).advice) == advice_joined(
                crate::exec::snapshot::advice_of(old(self).advice),
                crate::exec::snapshot::advice_of(advice),
            ),
            *final(self) == (Executor { advice: final(self).advice, ..*old(self) }),
    {
        add_advice(&mut self.advice, advice);
    }

    /// Adds a library that the program can call.
    pub fn with_library(&mut self, library: Library)
        ensures
            final(self).libraries@ == old(self).libraries@.push(library),
            *final(self) == (Executor { libraries: final(self).libraries, ..*old(self) }),
    {
        self.libraries.push(library);
    }

    /// What stands behind each hash, to be added to.
    pub fn dependency_resolver_mut(&mut self) -> (r: &mut DependencyResolver)
        ensures
            *r == old(self).dependency_resolver,
            *final(self) == (Executor { dependency_resolver: *final(r), ..*old(self) }),
    {
        &mut self.dependency_resolver
    }

    /// Makes a library known under its hash, so that packages that depend on it find it.
    pub fn register_library_dependency(&mut self, library: Library)
        ensures
            final(self).dependency_resolver.lookup(library.digest) == Some(
                ResolvedDependency::Library(library),
            ),
            forall|other: Word|
                other != library.digest ==> #[trigger] final(self).dependency_resolver.lookup(other)
                    == old(self).dependency_resolver.lookup(other),
            *final(self) == (Executor {
                dependency_resolver: final(self).dependency_resolver,
                ..*old(self)
            }),
    {
        let digest = library.digest;
        self.dependency_resolver.add(digest, ResolvedDependency::Library(library));
    }

    /// Whether the executor and the host are those of the program, set up but not run: the processor
    /// is ready to run it from the beginning; the host has the code of the libraries and the further
    /// code, plays back the changes, and passes on which frames start and end and which assertions
    /// fail, and nothing else.
    pub open spec fn sets_up(
        &self,
        program: Program,
        executor: DebugExecutor,
        host: DebuggerHost,
        further: Seq<Arc<MastForest>>,
        replay: Seq<Vec<AdviceMutation>>,
    ) -> bool {
        &&& executor.wf()
        &&& executor.resume_ctx matches Some(context)
        &&& self.start_of(program) == Ok::<_, Seq<char>>((executor.processor, context))
        &&& is_fresh(executor.processor, self.stack.elements@)
        &&& executor.current_stack@.len() == 0
        &&& executor.current_op is None
        &&& executor.current_asmop is None
        &&& executor.stack_outputs.elements@ == crate::exec::trace::top_of_stack(Seq::empty())
        &&& executor.contexts@ == Set::<u32>::empty()
        &&& executor.root_context == 0
        &&& executor.current_context == 0
        &&& executor.callstack@.frames.len() == 0
        &&& executor.callstack@.block_stack.len() == 0
        &&& executor.callstack@.contexts == Set::<Seq<char>>::empty()
        &&& executor.callstack@.trace_events == Map::<u32, TraceEvent>::empty()
        &&& executor.recent@.len() == 0
        &&& executor.cycle == 0
        &&& !executor.stopped
        &&& executor.failure is None
        &&& host.code() == crate::exec::host::code_of(library_forests(self.libraries@) + further)
        &&& host.event_replay@ == replay
        &&& host.handlers(TraceEvent::FrameStart.key()) == seq![NOTING_HANDLER]
        &&& host.handlers(TraceEvent::FrameEnd.key()) == seq![NOTING_HANDLER]
        &&& forall|key: u32|
            key != TraceEvent::FrameStart.key() && key != TraceEvent::FrameEnd.key() ==> (
            #[trigger] host.handlers(key)).len() == 0
        &&& host.on_assert_failed == Some(NOTING_HANDLER)
    }

    /// What the virtual machine makes of the program with these inputs and limits.
    pub open spec fn start_of(&self, program: Program) -> Result<
        (FastProcessor, ResumeContext),
        Seq<char>,
    > {
        started(
            self.stack.elements@,
            crate::exec::snapshot::advice_of(self.advice),
            self.options,
            program,
        )
    }

    /// Whether the program cannot be started, and why.
    pub open spec fn is_refused(&self, program: Program, message: Seq<char>) -> bool {
        self.start_of(program) == Err::<(FastProcessor, ResumeContext), _>(message)
    }

    /// Sets up the program to be run one cycle at a time.
    pub fn into_debug(self, program: &Program) -> (r: Result<(DebugExecutor, DebuggerHost), String>)
        requires
            self.wf(),
        ensures
            match r {
                Ok((executor, host)) => self.sets_up(
                    *program,
                    executor,
                    host,
                    Seq::empty(),
                    Seq::empty(),
                ),
                Err(m) => self.is_refused(*program, m@),
            },
    {
        self.into_debug_with_replay(program, Vec::new(), VecDeque::new())
    }

    /// Sets up the program to be run one cycle at a time, with further code that it can call, and
    /// with recorded changes that are played back when it raises events.
    pub fn into_debug_with_replay(
        self,
        program: &Program,
        extra_forests: Vec<Arc<MastForest>>,
        event_replay: VecDeque<Vec<AdviceMutation>>,
    ) -> (r: Result<(DebugExecutor, DebuggerHost), String>)
        requires
            self.wf(),
        ensures
            match r {
                Ok((executor, host)) => self.sets_up(
                    *program,
                    executor,
                    host,
                    extra_forests@,
                    event_replay@,
                ),
                Err(m) => self.is_refused(*program, m@),
            },
    {
        let mut host = DebuggerHost::new();
        host.register_trace_handler(TraceEvent::FrameStart, NOTING_HANDLER);
        host.register_trace_handler(TraceEvent::FrameEnd, NOTING_HANDLER);
        proof {
            assert(host.handlers(TraceEvent::FrameStart.key()) =~= seq![NOTING_HANDLER]);
            assert(host.handlers(TraceEvent::FrameEnd.key()) =~= seq![NOTING_HANDLER]);
        }
        let ghost ready = host;
        host.register_assert_failed_tracer(NOTING_HANDLER);
        let mut i: usize = 0;
        proof {
            assert(library_forests(self.libraries@.take(0)) =~= Seq::empty());
        }
        while i < self.libraries.len()
            invariant
                i <= self.libraries@.len(),
                host.code() == crate::exec::host::code_of(
                    library_forests(self.libraries@.take(i as int)),
                ),
                host.tracing_callbacks == ready.tracing_callbacks,
                host.on_assert_failed == Some(NOTING_HANDLER),
            decreases self.libraries@.len() - i,
        {
            host.load_mast_forest(Arc::clone(&self.libraries[i].forest));
            i += 1;
            proof {
                assert(library_forests(self.libraries@.take(i as int)).drop_last()
                    =~= library_forests(self.libraries@.take(i - 1)));
            }
        }
        proof {
            assert(self.libraries@.take(i as int) =~= self.libraries@);
        }
        let mut k: usize = 0;
        proof {
            assert(library_forests(self.libraries@) + extra_forests@.take(0) =~= library_forests(
                self.libraries@,
            ));
        }
        while k < extra_forests.len()
            invariant
                k <= extra_forests@.len(),
                host.code() == crate::exec::host::code_of(
                    library_forests(self.libraries@) + extra_forests@.take(k as int),
                ),
                host.tracing_callbacks == ready.tracing_callbacks,
                host.on_assert_failed == Some(NOTING_HANDLER),
            decreases extra_forests@.len() - k,
        {
            host.load_mast_forest(Arc::clone(&extra_forests[k]));
            k += 1;
            proof {
                let loaded = library_forests(self.libraries@) + extra_forests@.take(k as int);
                assert(loaded.drop_last() =~= library_forests(self.libraries@)
                    + extra_forests@.take(k - 1));
                assert(loaded.last() == extra_forests@[k - 1]);
            }
        }
        proof {
            assert(extra_forests@.take(k as int) =~= extra_forests@);
        }
        host.set_event_replay(event_replay);
        proof {
            assert(host.handlers(TraceEvent::FrameStart.key()) == ready.handlers(
                TraceEvent::FrameStart.key(),
            ));
            assert(host.handlers(TraceEvent::FrameEnd.key()) == ready.handlers(
                TraceEvent::FrameEnd.key(),
            ));
            assert forall|key: u32|
                key != TraceEvent::FrameStart.key() && key != TraceEvent::FrameEnd.key() implies (
            #[trigger] host.handlers(key)).len() == 0 by {
                assert(host.handlers(key) == ready.handlers(key));
            }
        }
        match start(&self.stack, self.advice, limits(self.options), program) {
            Err(m) => Err(m),
            Ok((processor, context)) => {
                let executor = DebugExecutor {
                    processor,
                    resume_ctx: Some(context),
                    current_stack: Vec::new(),
                    current_op: None,
                    current_asmop: None,
                    stack_outputs: StackOutputs::top_of(&Vec::new()),
                    contexts: BTreeSet::new(),
                    root_context: 0,
                    current_context: 0,
                    callstack: CallStack::new(BTreeMap::new()),
                    recent: VecDeque::new(),
                    cycle: 0,
                    stopped: false,
                    failure: None,
                };
                Ok((executor, host))
            },
        }
    }
}

/// What is set up is the program in the state in which it is ready to run.
pub proof fn what_is_set_up_is_ready(
    first: Executor,
    program: Program,
    executor: DebugExecutor,
    host: DebuggerHost,
    further: Seq<Arc<MastForest>>,
    replay: Seq<Vec<AdviceMutation>>,
)
    requires
        first.sets_up(program, executor, host, further, replay),
    ensures
        first.start_of(program) matches Ok((processor, context)) && executor@
            == ExecutorState::ready(processor, context),
{
    let (processor, context) = first.start_of(program)->Ok_0;
    let ready = ExecutorState::ready(processor, context);
    assert(executor@.current_stack =~= ready.current_stack);
    assert(executor@.recent =~= ready.recent);
    assert(executor@.callstack.frames =~= ready.callstack.frames);
    assert(executor@.callstack.block_stack =~= ready.callstack.block_stack);
    assert(executor@.callstack == ready.callstack);
}

/// A program that is set up again, with the same inputs, limits, code and recorded changes, begins
/// in the same state, so that it can be run as often as one likes. With no further code and no
/// recorded changes, it begins like one that is set up without them.
pub proof fn a_program_is_set_up_alike(
    first: Executor,
    second: Executor,
    program: Program,
    executors: (DebugExecutor, DebugExecutor),
    hosts: (DebuggerHost, DebuggerHost),
    further: Seq<Arc<MastForest>>,
    replay: Seq<Vec<AdviceMutation>>,
)
    requires
        first.stack.elements@ == second.stack.elements@,
        crate::exec::snapshot::advice_of(first.advice) == crate::exec::snapshot::advice_of(
            second.advice,
        ),
        first.options == second.options,
        first.libraries@ == second.libraries@,
        first.sets_up(program, executors.0, hosts.0, further, replay),
        second.sets_up(program, executors.1, hosts.1, further, replay),
    ensures
        executors.0@ == executors.1@,
        hosts.0.code() == hosts.1.code(),
        hosts.0.event_replay@ == hosts.1.event_replay@,
        forall|key: u32| #[trigger] hosts.0.handlers(key) == hosts.1.handlers(key),
        hosts.0.on_assert_failed == hosts.1.on_assert_failed,
{
    what_is_set_up_is_ready(first, program, executors.0, hosts.0, further, replay);
    what_is_set_up_is_ready(second, program, executors.1, hosts.1, further, replay);
    assert forall|key: u32| #[trigger] hosts.0.handlers(key) == hosts.1.handlers(key) by {
        if key != TraceEvent::FrameStart.key() && key != TraceEvent::FrameEnd.key() {
            assert(hosts.0.handlers(key) =~= hosts.1.handlers(key));
        }
    }
}

/// The usual limits are accepted as they are.
pub proof fn usual_is_accepted()
    ensures
        RunOptions::usual().wf(),
{
    assert(crate::exec::options::power_of_two_from(1, 64) == 64) by {
        reveal_with_fuel(crate::exec::options::power_of_two_from, 8);
    }
}

// ---------------------------------------------------------------------------------------------
// Reports
// ---------------------------------------------------------------------------------------------

/// Values to be shown, separated by commas.
#[derive(Debug)]
pub struct DisplayValues {
    pub values: Vec<u64>,
}

/// Numbers, separated by commas.
pub open spec fn comma_separated(values: Seq<u64>) -> Seq<char>
    decreases values.len(),
{
    if values.len() == 0 {
        Seq::empty()
    } else if values.len() == 1 {
        crate::text::decimal(values[0] as nat)
    } else {
        comma_separated(values.drop_last()) + ", "@ + crate::text::decimal(values.last() as nat)
    }
}

impl DisplayValues {
    pub fn new(values: Vec<u64>) -> (r: Self)
        ensures
            r.values == values,
    {
        DisplayValues { values }
    }

    /// The values, separated by commas.
    pub fn text(&self) -> (r: String)
        ensures
            r@ == comma_separated(self.values@),
    {
        let mut out = String::new();
        let mut i: usize = 0;
        proof {
            assert(self.values@.take(0) =~= Seq::<u64>::empty());
            assert(out@ =~= comma_separated(self.values@.take(0)));
        }
        while i < self.values.len()
            invariant
                i <= self.values@.len(),
                out@ == comma_separated(self.values@.take(i as int)),
            decreases self.values@.len() - i,
        {
            proof {
                assert(self.values@.take(i + 1).drop_last() =~= self.values@.take(i as int));
            }
            if i > 0 {
                out.append(", ");
            }
            out.append(crate::text::render_decimal(self.values[i]).as_str());
            i += 1;
            proof {
                assert(out@ =~= comma_separated(self.values@.take(i as int)));
            }
        }
        proof {
            assert(self.values@.take(i as int) =~= self.values@);
        }
        out
    }
}

/// How a program failed.
pub struct ErrorReport {
    /// How the program got where it failed.
    pub stacktrace: String,
    /// The operand stack after the last instruction that succeeded, where it is known.
    pub last_state: Option<String>,
    /// What went wrong, and when.
    pub message: String,
    /// Where it went wrong, where the operand stack is known.
    pub location: Option<ResolvedLocation>,
}

/// Whether a report tells how a program failed.
pub open spec fn reports_failure(
    report: ErrorReport,
    executor: DebugExecutor,
    error: Seq<char>,
    sources: crate::debug::source::SourcesView,
) -> bool {
    let stack = executor.callstack@;
    let step = crate::text::decimal(executor.cycle as nat);
    &&& report.stacktrace@ == stack.with_top_shown(sources).trace_text(executor.recent@, sources)
    &&& if executor.current_stack@.len() > 0 {
        &&& report.last_state matches Some(text) && text@
            == "\nLast Known State (at most recent instruction which succeeded):\n | Operand Stack: ["@
            + comma_separated(executor.current_stack@) + "]\n "@
        &&& report.message@ == "program execution failed at step "@ + step + " (cycle "@ + step
            + "): "@ + error
        &&& crate::debug::source::resolved_view(report.location) == if stack.frames.len() > 0 {
            stack.frames.last().last_resolved(sources)
        } else {
            None
        }
    } else {
        &&& report.last_state is None
        &&& report.message@ == "program execution failed at step "@ + step + ": "@ + error
        &&& report.location is None
    }
}

fn copied(values: &Vec<u64>) -> (r: Vec<u64>)
    ensures
        r@ == values@,
{
    let mut out: Vec<u64> = Vec::new();
    out.extend_from_slice(values.as_slice());
    proof {
        assert(out@ =~= values@);
    }
    out
}

/// Reports how a program failed.
pub fn render_execution_error(
    error: &str,
    executor: &mut DebugExecutor,
    sources: &SourceManager,
) -> (r: ErrorReport)
    requires
        sources.wf(),
        old(executor).callstack@.fits(sources@),
    ensures
        reports_failure(r, *old(executor), error@, sources@),
        final(executor).callstack@ == old(executor).callstack@.with_top_shown(sources@).all_shown(
            sources@,
        ),
        *final(executor) == (DebugExecutor {
            callstack: final(executor).callstack,
            ..*old(executor)
        }),
{
    let trace = executor.callstack.stacktrace(sources);
    proof {
        crate::debug::stacktrace::top_shown_fits(old(executor).callstack@, sources@);
    }
    let stacktrace = trace.display(&mut executor.callstack, &executor.recent, sources);
    let step = crate::text::render_usize(executor.cycle);
    let mut message = "program execution failed at step ".to_owned();
    message.append(step.as_str());
    if executor.current_stack.len() == 0 {
        message.append(": ");
        message.append(error);
        return ErrorReport { stacktrace, last_state: None, message, location: None };
    }
    message.append(" (cycle ");
    message.append(step.as_str());
    message.append("): ");
    message.append(error);
    let mut state =
        "\nLast Known State (at most recent instruction which succeeded):\n | Operand Stack: [".to_owned();
    state.append(DisplayValues::new(copied(&executor.current_stack)).text().as_str());
    state.append("]\n ");
    let location = match trace.current_frame {
        Some(frame) => frame.location,
        None => None,
    };
    ErrorReport { stacktrace, last_state: Some(state), message, location }
}

/// Numbers stand one after the other, each as itself, with a comma and a blank between them.
pub proof fn numbers_are_separated_by_commas(first: Seq<u64>, n: u64, later: Seq<u64>)
    ensures
        comma_separated(Seq::empty()).len() == 0,
        crate::text::shows_number(comma_separated(seq![n]), n as int),
        first.len() > 0 && later.len() > 0 ==> comma_separated(first + later) == comma_separated(
            first,
        ) + seq![',', ' '] + comma_separated(later),
    decreases later.len(),
{
    reveal_strlit(", ");
    assert(", "@ =~= seq![',', ' ']);
    crate::text::a_number_is_what_its_digits_stand_for(n as nat, 10);
    if first.len() > 0 && later.len() > 0 {
        let all = first + later;
        assert(all.drop_last() =~= first + later.drop_last());
        if later.len() == 1 {
            assert(all.drop_last() =~= first);
        } else {
            numbers_are_separated_by_commas(first, n, later.drop_last());
            assert(comma_separated(all) =~= comma_separated(first) + seq![',', ' ']
                + comma_separated(later));
        }
    }
}

/// Of the entries with a hash the last one counts.
pub proof fn the_last_entry_counts(
    entries: Seq<(Word, ResolvedDependency)>,
    digest: Word,
    i: int,
)
    ensures
        0 <= i < entries.len() && entries[i].0 == digest && (forall|k: int|
            i < k < entries.len() ==> (#[trigger] entries[k]).0 != digest) ==> last_entry(
            entries,
            digest,
        ) == Some(entries[i].1),
        (forall|k: int| 0 <= k < entries.len() ==> (#[trigger] entries[k]).0 != digest)
            ==> last_entry(entries, digest) is None,
    decreases entries.len(),
{
    if entries.len() > 0 {
        let front = entries.drop_last();
        the_last_entry_counts(front, digest, i);
        assert(entries.last() == entries[entries.len() - 1]);
        if forall|k: int| 0 <= k < entries.len() ==> (#[trigger] entries[k]).0 != digest {
            assert forall|k: int| 0 <= k < front.len() implies (#[trigger] front[k]).0 != digest by {
                assert(front[k] == entries[k]);
            }
        }
        if 0 <= i < front.len() && entries[i].0 == digest && (forall|k: int|
            i < k < entries.len() ==> (#[trigger] entries[k]).0 != digest) {
            assert(front[i] == entries[i]);
            assert forall|k: int| i < k < front.len() implies (#[trigger] front[k]).0 != digest by {
                assert(front[k] == entries[k]);
            }
        }
    }
}

/// The libraries that dependencies stand for come in the order of the dependencies; where one of them
/// is a package without a library, the ones before it do, and the package is named.
pub proof fn dependencies_come_in_order(
    resolver: DependencyResolver,
    dependencies: Seq<Dependency>,
    i: int,
)
    requires
        dependencies_known(resolver, dependencies),
    ensures
        ({
            let (libraries, culprit) = dependency_libraries(resolver, dependencies);
            &&& libraries.len() <= dependencies.len()
            &&& 0 <= i < libraries.len() ==> match resolver.lookup(dependencies[i].digest) {
                Some(ResolvedDependency::Library(library)) => libraries[i] == library,
                Some(ResolvedDependency::Package { library: Some(library), .. }) => libraries[i]
                    == library,
                _ => false,
            }
            &&& match culprit {
                None => libraries.len() == dependencies.len(),
                Some(name) => libraries.len() < dependencies.len() && (resolver.lookup(
                    dependencies[libraries.len() as int].digest,
                ) matches Some(ResolvedDependency::Package { name: named, library: None })
                    && named@ == name),
            }
        }),
    decreases dependencies.len(),
{
    if dependencies.len() > 0 {
        let rest = dependencies.skip(1);
        match resolver.lookup(dependencies[0].digest) {
            Some(ResolvedDependency::Package { library: None, .. }) => {},
            _ => {
                dependencies_come_in_order(resolver, rest, i - 1);
                let (others, culprit) = dependency_libraries(resolver, rest);
                if 0 < i <= others.len() {
                    assert(rest[i - 1] == dependencies[i]);
                }
                if others.len() < rest.len() {
                    assert(rest[others.len() as int] == dependencies[others.len() as int + 1]);
                }
            },
        }
    }
}

/// Advice put together: the stack has what came first on top, and what comes later below it; of two
/// entries with the same key, and of two nodes, the later one counts, and no other ones are lost.
pub proof fn advice_is_put_together(
    first: AdviceContents,
    later: AdviceContents,
    key: Seq<u64>,
)
    ensures
        ({
            let joined = advice_joined(first, later);
            &&& first.stack.is_prefix_of(joined.stack)
            &&& later.stack.is_suffix_of(joined.stack)
            &&& joined.stack.len() == first.stack.len() + later.stack.len()
            &&& later.map.dom().contains(key) ==> joined.map.dom().contains(key)
                && joined.map[key] == later.map[key]
            &&& !later.map.dom().contains(key) ==> joined.map.dom().contains(key)
                == first.map.dom().contains(key)
            &&& !later.map.dom().contains(key) && first.map.dom().contains(key)
                ==> joined.map[key] == first.map[key]
            &&& later.nodes.dom().contains(key) ==> joined.nodes.dom().contains(key)
                && joined.nodes[key] == later.nodes[key]
            &&& !later.nodes.dom().contains(key) ==> joined.nodes.dom().contains(key)
                == first.nodes.dom().contains(key)
            &&& !later.nodes.dom().contains(key) && first.nodes.dom().contains(key)
                ==> joined.nodes[key] == first.nodes[key]
        }),
{
    let joined = advice_joined(first, later);
    assert(first.stack =~= joined.stack.subrange(0, first.stack.len() as int));
    assert(later.stack =~= joined.stack.subrange(
        joined.stack.len() - later.stack.len(),
        joined.stack.len() as int,
    ));
}

/// A program that is set up has the code of its libraries, and of what further code it was given,
/// which counts more; it plays back the changes it was given, and is told of frames and of failed
/// assertions.
pub proof fn a_program_is_set_up_with_its_libraries(
    given: Executor,
    program: Program,
    executor: DebugExecutor,
    host: DebuggerHost,
    further: Seq<Arc<MastForest>>,
    replay: Seq<Vec<AdviceMutation>>,
)
    requires
        given.sets_up(program, executor, host, further, replay),
    ensures
        executor.cycle == 0,
        !executor.stopped,
        executor.callstack@.frames.len() == 0,
        crate::exec::trace::stack_of(executor.processor) == given.stack.elements@.map_values(
            |e: Felt| e.value,
        ),
        host.event_replay@ == replay,
        host.handlers(240).len() == 1,
        host.handlers(252).len() == 1,
        host.on_assert_failed is Some,
        host.code() == crate::exec::host::code_of(
            given.libraries@.map_values(|l: Library| l.forest) + further,
        ),
        started(
            given.stack.elements@,
            crate::exec::snapshot::advice_of(given.advice),
            given.options,
            program,
        ) matches Ok((processor, context)) && executor.processor == processor
            && executor.resume_ctx == Some(context),
{
}

/// A failed program is reported with the cycle in which it failed, its error, and, where it is
/// known, what was on its operand stack.
pub proof fn a_failure_is_reported(
    report: ErrorReport,
    executor: DebugExecutor,
    error: Seq<char>,
    sources: crate::debug::source::SourcesView,
)
    requires
        reports_failure(report, executor, error, sources),
    ensures
        error.is_suffix_of(report.message@),
        report.last_state is Some <==> executor.current_stack@.len() > 0,
        exists|cycle: Seq<char>|
            {
                &&& #[trigger] crate::text::shows_number(cycle, executor.cycle as int)
                &&& crate::text::occurs_at(
                    report.message@,
                    cycle,
                    "program execution failed at step "@.len() as int,
                )
            },
        report.last_state matches Some(text) ==> exists|at: int|
            #[trigger] crate::text::occurs_at(
                text@,
                seq!['['] + comma_separated(executor.current_stack@) + seq![']'],
                at,
            ),
{
    let m = report.message@;
    let step = crate::text::decimal(executor.cycle as nat);
    crate::text::a_number_is_what_its_digits_stand_for(executor.cycle as nat, 10);
    assert(crate::text::shows_number(step, executor.cycle as int));
    assert(m.subrange(m.len() - error.len(), m.len() as int) =~= error);
    let at = "program execution failed at step "@.len() as int;
    assert(m.subrange(at, at + step.len()) =~= step);
    if let Some(text) = report.last_state {
        reveal_strlit("]\n ");
        reveal_strlit(
            "\nLast Known State (at most recent instruction which succeeded):\n | Operand Stack: [",
        );
        let before =
            "\nLast Known State (at most recent instruction which succeeded):\n | Operand Stack: ["@;
        let values = comma_separated(executor.current_stack@);
        let listed = seq!['['] + values + seq![']'];
        let from = before.len() - 1;
        assert(text@.subrange(from, from + listed.len()) =~= listed);
        assert(crate::text::occurs_at(text@, listed, from));
    }
}

/// A new executor has the arguments on its stack, the first one on top, with zeros below, sixteen
/// elements in all; it reports what it does, has no advice, and knows of no libraries.
pub proof fn a_new_executor_has_its_arguments(executor: Executor, args: Seq<Felt>, i: int)
    requires
        executor.is_new(args),
        args.len() <= 16,
    ensures
        executor.stack.elements@.len() == 16,
        0 <= i < args.len() ==> executor.stack.elements@[i] == args[i],
        args.len() <= i < 16 ==> executor.stack.elements@[i].value == 0,
        executor.options.enable_tracing && executor.options.enable_debugging,
        executor.options.max_cycles == 0x2000_0000 && executor.options.expected_cycles == 64,
        executor.options.core_trace_fragment_size == 4096,
        executor.options.max_adv_map_value_size == 0x2_0000,
        executor.options.max_adv_map_elements == 0x10_0000,
        executor.options.max_hash_len_bytes == 0x10_0000,
        executor.options.max_num_continuations == 0x1_0000,
        executor.options.max_stack_depth == 6615,
        executor.libraries@.len() == 0,
        crate::exec::snapshot::advice_of(executor.advice).stack.len() == 0,
        crate::exec::snapshot::advice_of(executor.advice).map.dom() == Set::<Seq<u64>>::empty(),
{
}

/// A processor that has not run has only zeros in its memory, in every context, and is in the root
/// context.
pub proof fn a_fresh_processor_has_run_nothing(
    processor: FastProcessor,
    stack: Seq<Felt>,
    ctx: u32,
    addr: u32,
)
    requires
        is_fresh(processor, stack),
    ensures
        crate::exec::trace::element_at(crate::exec::trace::memory_of(processor), ctx, addr) == 0,
        crate::exec::trace::context_of(processor) == 0,
        crate::exec::trace::stack_of(processor).len() == stack.len(),
        forall|i: int|
            0 <= i < stack.len() ==> #[trigger] crate::exec::trace::stack_of(processor)[i]
                == stack[i].value,
{
}

} // verus!
