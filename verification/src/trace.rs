//! Which functions a program runs, in order, and how many cycles each of them takes.
//!
//! The names of the functions come from the debug information in the code that is run; what is run
//! by code without it counts as `<unknown>`.
use std::collections::VecDeque;

use vstd::prelude::*;
use vstd::string::*;

use crate::exec::advice::AdviceMutation;
use crate::exec::executor::{ExecutionConfig, Executor};
use crate::exec::host::DebuggerHost;
use crate::exec::options::RunOptions;
use crate::exec::snapshot::ReplaySnapshot;
use crate::exec::state::DebugExecutor;

verus! {

// ---------------------------------------------------------------------------------------------
// What is traced
// ---------------------------------------------------------------------------------------------

/// The program went on in another function.
#[derive(Debug)]
pub struct TraceEntry {
    /// The cycle in which it did.
    pub cycle: usize,
    /// How deep the calls were nested. Code that does not report its call frames stays at zero.
    pub depth: usize,
    /// The full name of the function.
    pub procedure: String,
}

/// What a function adds up to.
#[derive(Debug, Clone, Copy, PartialEq, Eq, Structural)]
pub struct ProcedureTotals {
    /// The cycles spent in the function itself, without those in functions that it goes on in.
    pub cycles: usize,
    /// How many times the program went on in this function.
    pub entries: usize,
}

/// A function and what it adds up to.
#[derive(Debug)]
pub struct NamedTotals {
    pub procedure: String,
    pub totals: ProcedureTotals,
}

/// What a [`TraceEntry`] says.
pub struct EntryView {
    pub cycle: nat,
    pub depth: nat,
    pub procedure: Seq<char>,
}

/// What a [`NamedTotals`] says.
pub struct TotalsView {
    pub procedure: Seq<char>,
    pub cycles: nat,
    pub entries: nat,
}

impl View for TraceEntry {
    type V = EntryView;

    open spec fn view(&self) -> EntryView {
        EntryView {
            cycle: self.cycle as nat,
            depth: self.depth as nat,
            procedure: self.procedure@,
        }
    }
}

impl View for NamedTotals {
    type V = TotalsView;

    open spec fn view(&self) -> TotalsView {
        TotalsView {
            procedure: self.procedure@,
            cycles: self.totals.cycles as nat,
            entries: self.totals.entries as nat,
        }
    }
}

/// The functions that a program ran.
#[derive(Debug)]
pub struct FunctionTrace {
    entries: Vec<TraceEntry>,
    totals: Vec<NamedTotals>,
    total_cycles: usize,
    current: Option<String>,
    error: Option<String>,
}

/// What a [`FunctionTrace`] holds.
pub struct TraceView {
    /// Where the program went on, in order.
    pub entries: Seq<EntryView>,
    /// What the functions add up to, by name.
    pub totals: Seq<TotalsView>,
    pub total_cycles: nat,
    /// The function that the program is in.
    pub current: Option<Seq<char>>,
    /// Why the program failed.
    pub error: Option<Seq<char>>,
}

/// What a program did in one step.
#[derive(Debug)]
pub struct TraceStep {
    /// The cycle before the step.
    pub previous_cycle: usize,
    /// The cycle behind the step.
    pub cycle: usize,
    /// How deep the calls are nested.
    pub depth: usize,
    /// The function that the program is in, where it is known.
    pub procedure: Option<String>,
}

/// What a program did in the step that it has just taken, and that began in this cycle. The outermost
/// frame is that of the program itself: only the other ones are nested.
pub open spec fn step_of(executor: DebugExecutor, previous_cycle: usize) -> StepView {
    let frames = executor.callstack@.frames.len();
    StepView {
        previous: previous_cycle as nat,
        cycle: executor.cycle as nat,
        depth: if frames > 0 {
            (frames - 1) as nat
        } else {
            0
        },
        procedure: match executor.current_asmop {
            Some(op) => Some(op.context_name@),
            None => None,
        },
    }
}

impl TraceStep {
    /// What a program did in the step that it has just taken, and that began in this cycle.
    pub fn of(executor: &DebugExecutor, previous_cycle: usize) -> (r: Self)
        ensures
            r@ == step_of(*executor, previous_cycle),
    {
        let frames: usize = executor.callstack.frames().len();
        let depth: usize = if frames > 0 {
            frames - 1
        } else {
            0
        };
        TraceStep {
            previous_cycle,
            cycle: executor.cycle,
            depth,
            procedure: match &executor.current_asmop {
                Some(op) => Some(op.context_name.clone()),
                None => None,
            },
        }
    }
}

impl View for TraceStep {
    type V = StepView;

    open spec fn view(&self) -> StepView {
        StepView {
            previous: self.previous_cycle as nat,
            cycle: self.cycle as nat,
            depth: self.depth as nat,
            procedure: crate::debug::op::text_view(self.procedure),
        }
    }
}

/// What a [`TraceStep`] says.
pub struct StepView {
    /// The cycle before the step.
    pub previous: nat,
    /// The cycle behind the step.
    pub cycle: nat,
    pub depth: nat,
    pub procedure: Option<Seq<char>>,
}

pub open spec fn entry_views(entries: Seq<TraceEntry>) -> Seq<EntryView> {
    entries.map_values(|e: TraceEntry| e@)
}

pub open spec fn totals_views(totals: Seq<NamedTotals>) -> Seq<TotalsView> {
    totals.map_values(|t: NamedTotals| t@)
}

impl View for FunctionTrace {
    type V = TraceView;

    closed spec fn view(&self) -> TraceView {
        TraceView {
            entries: entry_views(self.entries@),
            totals: totals_views(self.totals@),
            total_cycles: self.total_cycles as nat,
            current: crate::debug::op::text_view(self.current),
            error: crate::debug::op::text_view(self.error),
        }
    }
}

/// Counts `cycles` for a function, and an entry where it was entered. The functions are kept in
/// the order of their names.
pub open spec fn counted(
    totals: Seq<TotalsView>,
    procedure: Seq<char>,
    cycles: nat,
    entered: bool,
) -> Seq<TotalsView>
    decreases totals.len(),
{
    let entry: nat = if entered {
        1
    } else {
        0
    };
    if totals.len() == 0 {
        seq![TotalsView { procedure, cycles, entries: entry }]
    } else if totals[0].procedure == procedure {
        totals.update(
            0,
            TotalsView {
                procedure,
                cycles: totals[0].cycles + cycles,
                entries: totals[0].entries + entry,
            },
        )
    } else if crate::text::text_le(procedure, totals[0].procedure) {
        seq![TotalsView { procedure, cycles, entries: entry }] + totals
    } else {
        seq![totals[0]] + counted(totals.skip(1), procedure, cycles, entered)
    }
}

/// The cycles of all functions together.
pub open spec fn cycles_sum(totals: Seq<TotalsView>) -> nat
    decreases totals.len(),
{
    if totals.len() == 0 {
        0
    } else {
        totals[0].cycles + cycles_sum(totals.skip(1))
    }
}

/// The entries of all functions together.
pub open spec fn entries_sum(totals: Seq<TotalsView>) -> nat
    decreases totals.len(),
{
    if totals.len() == 0 {
        0
    } else {
        totals[0].entries + entries_sum(totals.skip(1))
    }
}

/// The cycles that are counted for a function.
pub open spec fn cycles_of(totals: Seq<TotalsView>, procedure: Seq<char>) -> nat
    decreases totals.len(),
{
    if totals.len() == 0 {
        0
    } else if totals[0].procedure == procedure {
        totals[0].cycles
    } else {
        cycles_of(totals.skip(1), procedure)
    }
}

/// The entries that are counted for a function.
pub open spec fn entries_of(totals: Seq<TotalsView>, procedure: Seq<char>) -> nat
    decreases totals.len(),
{
    if totals.len() == 0 {
        0
    } else if totals[0].procedure == procedure {
        totals[0].entries
    } else {
        entries_of(totals.skip(1), procedure)
    }
}

/// How many entries name a function.
pub open spec fn entries_naming(entries: Seq<EntryView>, procedure: Seq<char>) -> nat
    decreases entries.len(),
{
    if entries.len() == 0 {
        0
    } else {
        entries_naming(entries.drop_last(), procedure) + if entries.last().procedure == procedure {
            1nat
        } else {
            0nat
        }
    }
}

/// The functions that entries name.
pub open spec fn entry_names(entries: Seq<EntryView>) -> Set<Seq<char>> {
    Set::new(
        |procedure: Seq<char>|
            exists|i: int|
                0 <= i < entries.len() && (#[trigger] entries[i]).procedure == procedure,
    )
}

/// The functions that something is counted for.
pub open spec fn totals_names(totals: Seq<TotalsView>) -> Set<Seq<char>> {
    Set::new(
        |procedure: Seq<char>|
            exists|i: int| 0 <= i < totals.len() && (#[trigger] totals[i]).procedure == procedure,
    )
}

impl StepView {
    /// The function that the cycles of the step are counted for. What is run by code without debug
    /// information has no name of its own.
    pub open spec fn counts_for(self) -> Seq<char> {
        match self.procedure {
            Some(name) => name,
            None => "<unknown>"@,
        }
    }

    /// The cycles that the step took.
    pub open spec fn cycles(self) -> nat {
        if self.cycle <= self.previous {
            0
        } else {
            (self.cycle - self.previous) as nat
        }
    }
}

/// The cycles that steps took in a function.
pub open spec fn spent_in(steps: Seq<StepView>, procedure: Seq<char>) -> nat
    decreases steps.len(),
{
    if steps.len() == 0 {
        0
    } else {
        spent_in(steps.drop_last(), procedure) + if steps.last().counts_for() == procedure {
            steps.last().cycles()
        } else {
            0
        }
    }
}

impl TraceView {
    /// A trace of nothing.
    pub open spec fn nothing() -> TraceView {
        TraceView {
            entries: Seq::empty(),
            totals: Seq::empty(),
            total_cycles: 0,
            current: None,
            error: None,
        }
    }

    /// The trace after another step. A step that takes no cycle leaves no mark.
    pub open spec fn after(self, step: StepView) -> TraceView {
        if step.cycle <= step.previous {
            self
        } else {
            let delta = step.cycles();
            let procedure = step.counts_for();
            let entered = self.current != Some(procedure);
            TraceView {
                entries: if entered {
                    self.entries.push(
                        EntryView { cycle: step.previous, depth: step.depth, procedure },
                    )
                } else {
                    self.entries
                },
                totals: counted(self.totals, procedure, delta, entered),
                total_cycles: self.total_cycles + delta,
                current: Some(procedure),
                error: self.error,
            }
        }
    }

    /// What holds of every trace: the cycles of the functions add up to all cycles, their entries
    /// add up to the number of times the program went on elsewhere; each function stands once, by
    /// name, with as many entries as name it; no function follows itself, and the last one is the
    /// one that the program is in.
    pub open spec fn wf(self) -> bool {
        &&& cycles_sum(self.totals) == self.total_cycles
        &&& entries_sum(self.totals) == self.entries.len()
        &&& names_ascend(self.totals)
        &&& forall|i: int|
            0 <= i < self.totals.len() ==> 0 < (#[trigger] self.totals[i]).entries
                <= self.totals[i].cycles
        &&& forall|procedure: Seq<char>| #[trigger]
            entries_of(self.totals, procedure) == entries_naming(self.entries, procedure)
        &&& forall|i: int, j: int|
            0 <= i && j == i + 1 && j < self.entries.len() ==> #[trigger] self.entries[i].procedure
                != #[trigger] self.entries[j].procedure
        &&& self.current == if self.entries.len() > 0 {
            Some(self.entries.last().procedure)
        } else {
            None
        }
    }
}

/// Each name comes before the next.
pub open spec fn names_ascend(totals: Seq<TotalsView>) -> bool {
    forall|i: int, j: int|
        0 <= i < j < totals.len() ==> name_before(#[trigger] totals[i], #[trigger] totals[j])
}

/// The name of one function comes before that of another.
pub open spec fn name_before(a: TotalsView, b: TotalsView) -> bool {
    a.procedure != b.procedure && crate::text::text_le(a.procedure, b.procedure)
}

// ---------------------------------------------------------------------------------------------
// What holds of every trace
// ---------------------------------------------------------------------------------------------

/// Counting adds the cycles and the entry, and nothing else.
proof fn counted_sums(totals: Seq<TotalsView>, procedure: Seq<char>, cycles: nat, entered: bool)
    ensures
        cycles_sum(counted(totals, procedure, cycles, entered)) == cycles_sum(totals) + cycles,
        entries_sum(counted(totals, procedure, cycles, entered)) == entries_sum(totals) + (
        if entered {
            1nat
        } else {
            0nat
        }),
    decreases totals.len(),
{
    let after = counted(totals, procedure, cycles, entered);
    if totals.len() == 0 {
        assert(after.skip(1) =~= totals);
        reveal_with_fuel(cycles_sum, 2);
        reveal_with_fuel(entries_sum, 2);
    } else if totals[0].procedure == procedure {
        assert(after.skip(1) =~= totals.skip(1));
    } else if crate::text::text_le(procedure, totals[0].procedure) {
        assert(after.skip(1) =~= totals);
    } else {
        counted_sums(totals.skip(1), procedure, cycles, entered);
        assert(after.skip(1) =~= counted(totals.skip(1), procedure, cycles, entered));
    }
}

/// Counting keeps the order of the names, and adds no name but the one counted for.
proof fn counted_ascends(totals: Seq<TotalsView>, procedure: Seq<char>, cycles: nat, entered: bool)
    requires
        names_ascend(totals),
        entered ==> cycles > 0,
        forall|i: int|
            0 <= i < totals.len() ==> (#[trigger] totals[i]).entries <= totals[i].cycles,
    ensures
        names_ascend(counted(totals, procedure, cycles, entered)),
        forall|i: int|
            0 <= i < counted(totals, procedure, cycles, entered).len() ==> {
                let t = #[trigger] counted(totals, procedure, cycles, entered)[i];
                &&& t.entries <= t.cycles
                &&& t.procedure == procedure || exists|k: int|
                    0 <= k < totals.len() && (#[trigger] totals[k]).procedure == t.procedure
            },
    decreases totals.len(),
{
    let after = counted(totals, procedure, cycles, entered);
    if totals.len() == 0 {
    } else if totals[0].procedure == procedure {
        assert forall|i: int| 0 <= i < after.len() implies (#[trigger] after[i]).procedure
            == totals[i].procedure by {}
        assert forall|i: int, j: int| 0 <= i < j < after.len() implies name_before(
            #[trigger] after[i],
            #[trigger] after[j],
        ) by {
            assert(name_before(totals[i], totals[j]));
        }
    } else if crate::text::text_le(procedure, totals[0].procedure) {
        assert forall|i: int, j: int| 0 <= i < j < after.len() implies name_before(
            #[trigger] after[i],
            #[trigger] after[j],
        ) by {
            assert(after[j] == totals[j - 1]);
            if i > 0 {
                assert(after[i] == totals[i - 1]);
                assert(name_before(totals[i - 1], totals[j - 1]));
            } else if j > 1 {
                assert(name_before(totals[0], totals[j - 1]));
                crate::text::text_le_transitive(
                    procedure,
                    totals[0].procedure,
                    totals[j - 1].procedure,
                );
                if procedure == totals[j - 1].procedure {
                    crate::text::text_le_antisymmetric(procedure, totals[0].procedure);
                }
            }
        }
        assert forall|i: int| 0 <= i < after.len() implies {
            let t = #[trigger] after[i];
            &&& t.entries <= t.cycles
            &&& t.procedure == procedure || exists|k: int|
                0 <= k < totals.len() && (#[trigger] totals[k]).procedure == t.procedure
        } by {
            if i > 0 {
                assert(after[i] == totals[i - 1]);
            }
        }
    } else {
        let others = totals.skip(1);
        assert forall|i: int, j: int| 0 <= i < j < others.len() implies name_before(
            #[trigger] others[i],
            #[trigger] others[j],
        ) by {
            assert(name_before(totals[i + 1], totals[j + 1]));
        }
        assert forall|i: int| 0 <= i < others.len() implies (#[trigger] others[i]).entries
            <= others[i].cycles by {
            assert(others[i] == totals[i + 1]);
        }
        counted_ascends(others, procedure, cycles, entered);
        let rest = counted(others, procedure, cycles, entered);
        crate::text::text_le_total(procedure, totals[0].procedure);
        assert forall|j: int| 0 <= j < rest.len() implies name_before(totals[0], #[trigger] rest[j]) by {
            if rest[j].procedure != procedure {
                let k = choose|k: int|
                    0 <= k < others.len() && (#[trigger] others[k]).procedure == rest[j].procedure;
                assert(others[k] == totals[k + 1]);
                assert(name_before(totals[0], totals[k + 1]));
            }
        }
        assert forall|i: int, j: int| 0 <= i < j < after.len() implies name_before(
            #[trigger] after[i],
            #[trigger] after[j],
        ) by {
            assert(after[j] == rest[j - 1]);
            if i > 0 {
                assert(after[i] == rest[i - 1]);
            }
        }
        assert forall|i: int| 0 <= i < after.len() implies {
            let t = #[trigger] after[i];
            &&& t.entries <= t.cycles
            &&& t.procedure == procedure || exists|k: int|
                0 <= k < totals.len() && (#[trigger] totals[k]).procedure == t.procedure
        } by {
            if i > 0 {
                assert(after[i] == rest[i - 1]);
                if rest[i - 1].procedure != procedure {
                    let k = choose|k: int|
                        0 <= k < others.len() && (#[trigger] others[k]).procedure
                            == rest[i - 1].procedure;
                    assert(totals[k + 1].procedure == rest[i - 1].procedure);
                }
            } else {
                assert(after[0] == totals[0]);
            }
        }
    }
}

/// A name that comes before the first of them is not among the functions.
proof fn before_the_first(totals: Seq<TotalsView>, procedure: Seq<char>)
    requires
        names_ascend(totals),
        totals.len() > 0 ==> totals[0].procedure != procedure && crate::text::text_le(
            procedure,
            totals[0].procedure,
        ),
    ensures
        cycles_of(totals, procedure) == 0,
        entries_of(totals, procedure) == 0,
    decreases totals.len(),
{
    if totals.len() > 0 {
        let others = totals.skip(1);
        others_ascend(totals);
        if others.len() > 0 {
            assert(others[0] == totals[1]);
            assert(name_before(totals[0], totals[1]));
            crate::text::text_le_transitive(
                procedure,
                totals[0].procedure,
                totals[1].procedure,
            );
            if procedure == totals[1].procedure {
                crate::text::text_le_antisymmetric(procedure, totals[0].procedure);
            }
        }
        before_the_first(others, procedure);
    }
}

proof fn others_ascend(totals: Seq<TotalsView>)
    requires
        names_ascend(totals),
        totals.len() > 0,
    ensures
        names_ascend(totals.skip(1)),
{
    let others = totals.skip(1);
    assert forall|i: int, j: int| 0 <= i < j < others.len() implies name_before(
        #[trigger] others[i],
        #[trigger] others[j],
    ) by {
        assert(name_before(totals[i + 1], totals[j + 1]));
    }
}

/// Counting adds to what is counted for the function, and leaves the others.
proof fn counted_for(
    totals: Seq<TotalsView>,
    procedure: Seq<char>,
    cycles: nat,
    entered: bool,
    other: Seq<char>,
)
    requires
        names_ascend(totals),
    ensures
        cycles_of(counted(totals, procedure, cycles, entered), other) == cycles_of(totals, other) + (
        if other == procedure {
            cycles
        } else {
            0
        }),
        entries_of(counted(totals, procedure, cycles, entered), other) == entries_of(totals, other)
            + (if other == procedure && entered {
            1nat
        } else {
            0nat
        }),
    decreases totals.len(),
{
    let after = counted(totals, procedure, cycles, entered);
    if totals.len() == 0 {
        assert(after.skip(1) =~= totals);
        reveal_with_fuel(cycles_of, 2);
        reveal_with_fuel(entries_of, 2);
    } else if totals[0].procedure == procedure {
        assert(after.skip(1) =~= totals.skip(1));
    } else if crate::text::text_le(procedure, totals[0].procedure) {
        assert(after.skip(1) =~= totals);
        before_the_first(totals, procedure);
    } else {
        others_ascend(totals);
        counted_for(totals.skip(1), procedure, cycles, entered, other);
        assert(after.skip(1) =~= counted(totals.skip(1), procedure, cycles, entered));
    }
}

/// What stands in the list for a function is what is counted for it.
proof fn listed_once(totals: Seq<TotalsView>, i: int)
    requires
        names_ascend(totals),
        0 <= i < totals.len(),
    ensures
        cycles_of(totals, totals[i].procedure) == totals[i].cycles,
        entries_of(totals, totals[i].procedure) == totals[i].entries,
    decreases totals.len(),
{
    if i > 0 {
        assert(name_before(totals[0], totals[i]));
        others_ascend(totals);
        assert(totals.skip(1)[i - 1] == totals[i]);
        listed_once(totals.skip(1), i - 1);
    }
}

/// What is counted for a function stands in the list.
proof fn counted_is_listed(totals: Seq<TotalsView>, procedure: Seq<char>)
    requires
        entries_of(totals, procedure) > 0,
    ensures
        totals_names(totals).contains(procedure),
    decreases totals.len(),
{
    if totals[0].procedure != procedure {
        counted_is_listed(totals.skip(1), procedure);
        let i = choose|i: int|
            0 <= i < totals.skip(1).len() && (#[trigger] totals.skip(1)[i]).procedure == procedure;
        assert(totals[i + 1].procedure == procedure);
    }
}

/// A function is named by some entry where the number of those that name it is not zero.
proof fn named_by_some(entries: Seq<EntryView>, procedure: Seq<char>)
    ensures
        entries_naming(entries, procedure) > 0 <==> entry_names(entries).contains(procedure),
    decreases entries.len(),
{
    if entries.len() > 0 {
        let before = entries.drop_last();
        named_by_some(before, procedure);
        if entries.last().procedure == procedure {
            assert(entries[entries.len() - 1].procedure == procedure);
        } else {
            if entry_names(before).contains(procedure) {
                let i = choose|i: int|
                    0 <= i < before.len() && (#[trigger] before[i]).procedure == procedure;
                assert(entries[i].procedure == procedure);
            }
            if entry_names(entries).contains(procedure) {
                let i = choose|i: int|
                    0 <= i < entries.len() && (#[trigger] entries[i]).procedure == procedure;
                assert(before[i].procedure == procedure);
            }
        }
    }
}

/// Every step keeps the sums, the order of the names, what is counted for each function, and that no
/// function follows itself.
pub proof fn a_step_keeps_the_sums(trace: TraceView, step: StepView)
    requires
        trace.wf(),
    ensures
        trace.after(step).wf(),
{
    if step.cycle > step.previous {
        let delta = step.cycles();
        let procedure = step.counts_for();
        let entered = trace.current != Some(procedure);
        let after = trace.after(step);
        counted_sums(trace.totals, procedure, delta, entered);
        counted_ascends(trace.totals, procedure, delta, entered);
        assert forall|other: Seq<char>| #[trigger]
            entries_of(after.totals, other) == entries_naming(after.entries, other) by {
            counted_for(trace.totals, procedure, delta, entered, other);
            assert(entries_of(trace.totals, other) == entries_naming(trace.entries, other));
            if entered {
                assert(after.entries.drop_last() =~= trace.entries);
            }
        }
        assert forall|i: int| 0 <= i < after.totals.len() implies 0 < (
        #[trigger] after.totals[i]).entries by {
            let name = after.totals[i].procedure;
            listed_once(after.totals, i);
            counted_for(trace.totals, procedure, delta, entered, name);
            if name == procedure {
                if !entered {
                    assert(trace.entries.last().procedure == procedure);
                    assert(entries_of(trace.totals, name) == entries_naming(trace.entries, name));
                }
            } else {
                let k = choose|k: int|
                    0 <= k < trace.totals.len() && (#[trigger] trace.totals[k]).procedure == name;
                listed_once(trace.totals, k);
            }
        }
    }
}

/// The trace of some steps.
pub open spec fn trace_of(steps: Seq<StepView>) -> TraceView
    decreases steps.len(),
{
    if steps.len() == 0 {
        TraceView::nothing()
    } else {
        trace_of(steps.drop_last()).after(steps.last())
    }
}

/// Whatever steps a program takes, the cycles of its functions add up to the cycles it ran, their
/// entries add up to the number of times it went on elsewhere, and no function follows itself.
pub proof fn totals_add_up(steps: Seq<StepView>)
    ensures
        cycles_sum(trace_of(steps).totals) == trace_of(steps).total_cycles,
        entries_sum(trace_of(steps).totals) == trace_of(steps).entries.len(),
        trace_of(steps).wf(),
    decreases steps.len(),
{
    if steps.len() > 0 {
        totals_add_up(steps.drop_last());
        a_step_keeps_the_sums(trace_of(steps.drop_last()), steps.last());
    }
}

/// Whatever steps a program takes, the functions that something is counted for are those that it
/// went on in; for each of them, as many entries are counted as name it, and as many cycles as it
/// took. Cycles in code without debug information are counted for `<unknown>`.
pub proof fn each_function_is_counted(steps: Seq<StepView>)
    ensures
        totals_names(trace_of(steps).totals) == entry_names(trace_of(steps).entries),
        forall|i: int|
            #![trigger trace_of(steps).totals[i]]
            0 <= i < trace_of(steps).totals.len() ==> {
                let t = trace_of(steps).totals[i];
                &&& t.entries == entries_naming(trace_of(steps).entries, t.procedure)
                &&& t.cycles == spent_in(steps, t.procedure)
            },
        forall|procedure: Seq<char>| #[trigger]
            spent_in(steps, procedure) == cycles_of(trace_of(steps).totals, procedure),
{
    let trace = trace_of(steps);
    totals_add_up(steps);
    assert forall|procedure: Seq<char>| #[trigger]
        spent_in(steps, procedure) == cycles_of(trace.totals, procedure) by {
        cycles_are_spent(steps, procedure);
    }
    assert forall|i: int| 0 <= i < trace.totals.len() implies {
        let t = #[trigger] trace.totals[i];
        &&& t.entries == entries_naming(trace.entries, t.procedure)
        &&& t.cycles == spent_in(steps, t.procedure)
    } by {
        listed_once(trace.totals, i);
        cycles_are_spent(steps, trace.totals[i].procedure);
    }
    assert forall|procedure: Seq<char>|
        totals_names(trace.totals).contains(procedure) <==> entry_names(trace.entries).contains(
            procedure,
        ) by {
        named_by_some(trace.entries, procedure);
        assert(entries_of(trace.totals, procedure) == entries_naming(trace.entries, procedure));
        if totals_names(trace.totals).contains(procedure) {
            let i = choose|i: int|
                0 <= i < trace.totals.len() && (#[trigger] trace.totals[i]).procedure == procedure;
            listed_once(trace.totals, i);
        }
        if entry_names(trace.entries).contains(procedure) {
            counted_is_listed(trace.totals, procedure);
        }
    }
    assert(totals_names(trace.totals) =~= entry_names(trace.entries));
}

proof fn cycles_are_spent(steps: Seq<StepView>, procedure: Seq<char>)
    ensures
        spent_in(steps, procedure) == cycles_of(trace_of(steps).totals, procedure),
    decreases steps.len(),
{
    if steps.len() > 0 {
        let before = steps.drop_last();
        let step = steps.last();
        cycles_are_spent(before, procedure);
        totals_add_up(before);
        if step.cycle > step.previous {
            let entered = trace_of(before).current != Some(step.counts_for());
            counted_for(
                trace_of(before).totals,
                step.counts_for(),
                step.cycles(),
                entered,
                procedure,
            );
        }
    }
}

/// Where every step begins when the one before it ended, and the cycle never decreases, all cycles
/// from the first to the last are counted.
pub proof fn all_cycles_are_counted(steps: Seq<StepView>)
    requires
        steps.len() > 0,
        forall|i: int| 0 <= i < steps.len() ==> (#[trigger] steps[i]).previous <= steps[i].cycle,
        forall|i: int, j: int|
            0 <= i && j == i + 1 && j < steps.len() ==> (#[trigger] steps[i]).cycle == (
            #[trigger] steps[j]).previous,
    ensures
        trace_of(steps).total_cycles == steps.last().cycle - steps[0].previous,
    decreases steps.len(),
{
    let before = steps.drop_last();
    if before.len() > 0 {
        assert forall|i: int| 0 <= i < before.len() implies (#[trigger] before[i]).previous
            <= before[i].cycle by {
            assert(before[i] == steps[i]);
        }
        assert forall|i: int, j: int| 0 <= i && j == i + 1 && j < before.len() implies (
        #[trigger] before[i]).cycle == (#[trigger] before[j]).previous by {
            assert(steps[i].cycle == steps[j].previous);
        }
        all_cycles_are_counted(before);
        assert(steps[before.len() - 1].cycle == steps[before.len() as int].previous);
        assert(before[0] == steps[0]);
    } else {
        assert(trace_of(before) == TraceView::nothing());
        assert(steps[0].previous <= steps[0].cycle);
    }
}

/// Where every step begins at the earliest when the one before it ended, the entries come in the
/// order of their cycles.
pub proof fn entries_are_in_order(steps: Seq<StepView>)
    requires
        forall|i: int, j: int|
            0 <= i < j < steps.len() ==> (#[trigger] steps[i]).cycle <= (
            #[trigger] steps[j]).previous,
    ensures
        forall|i: int, j: int|
            0 <= i < j < trace_of(steps).entries.len() ==> (
            #[trigger] trace_of(steps).entries[i]).cycle < (
            #[trigger] trace_of(steps).entries[j]).cycle,
    decreases steps.len(),
{
    if steps.len() > 0 {
        let before = steps.drop_last();
        entries_are_in_order(before);
        entries_begin_before(before, steps.last().previous);
    }
}

proof fn entries_begin_before(steps: Seq<StepView>, bound: nat)
    requires
        forall|i: int| 0 <= i < steps.len() ==> (#[trigger] steps[i]).cycle <= bound,
    ensures
        forall|i: int|
            0 <= i < trace_of(steps).entries.len() ==> (
            #[trigger] trace_of(steps).entries[i]).cycle < bound,
    decreases steps.len(),
{
    if steps.len() > 0 {
        entries_begin_before(steps.drop_last(), bound);
        assert(steps[steps.len() - 1].cycle <= bound);
    }
}

// ---------------------------------------------------------------------------------------------
// Tracing
// ---------------------------------------------------------------------------------------------

/// No function has more cycles than there are in all.
proof fn part_of_sum(totals: Seq<TotalsView>, i: int)
    requires
        0 <= i < totals.len(),
    ensures
        totals[i].cycles <= cycles_sum(totals),
        totals[i].entries <= entries_sum(totals),
    decreases totals.len(),
{
    if i > 0 {
        assert(totals.skip(1)[i - 1] == totals[i]);
        part_of_sum(totals.skip(1), i - 1);
    }
}

/// Counting goes past the names that come before.
proof fn counted_past(
    totals: Seq<TotalsView>,
    n: nat,
    procedure: Seq<char>,
    cycles: nat,
    entered: bool,
)
    requires
        n <= totals.len(),
        forall|i: int|
            0 <= i < n ==> (#[trigger] totals[i]).procedure != procedure && !crate::text::text_le(
                procedure,
                totals[i].procedure,
            ),
    ensures
        counted(totals, procedure, cycles, entered) == totals.take(n as int) + counted(
            totals.skip(n as int),
            procedure,
            cycles,
            entered,
        ),
    decreases n,
{
    if n == 0 {
        assert(totals.skip(0) =~= totals);
        assert(totals.take(0) + counted(totals, procedure, cycles, entered) =~= counted(
            totals,
            procedure,
            cycles,
            entered,
        ));
    } else {
        let others = totals.skip(1);
        assert forall|i: int| 0 <= i < n - 1 implies (#[trigger] others[i]).procedure != procedure
            && !crate::text::text_le(procedure, others[i].procedure) by {
            assert(others[i] == totals[i + 1]);
        }
        counted_past(others, (n - 1) as nat, procedure, cycles, entered);
        assert(others.skip(n - 1) =~= totals.skip(n as int));
        assert(seq![totals[0]] + (others.take(n - 1) + counted(
            totals.skip(n as int),
            procedure,
            cycles,
            entered,
        )) =~= totals.take(n as int) + counted(
            totals.skip(n as int),
            procedure,
            cycles,
            entered,
        ));
    }
}

impl FunctionTrace {
    /// A trace of nothing.
    pub fn new() -> (r: Self)
        ensures
            r@ == TraceView::nothing(),
            r@.wf(),
    {
        let r = FunctionTrace {
            entries: Vec::new(),
            totals: Vec::new(),
            total_cycles: 0,
            current: None,
            error: None,
        };
        proof {
            assert(r@.entries =~= Seq::<EntryView>::empty());
            assert(r@.totals =~= Seq::<TotalsView>::empty());
        }
        r
    }

    fn count(&mut self, procedure: &String, cycles: usize, entered: bool)
        requires
            old(self)@.totals.len() > 0 ==> cycles_sum(old(self)@.totals) + cycles <= usize::MAX,
            old(self)@.totals.len() > 0 ==> entries_sum(old(self)@.totals) < usize::MAX,
        ensures
            final(self)@ == (TraceView {
                totals: counted(old(self)@.totals, procedure@, cycles as nat, entered),
                ..old(self)@
            }),
    {
        let ghost start = self@.totals;
        let one: usize = if entered {
            1
        } else {
            0
        };
        let mut i: usize = 0;
        while i < self.totals.len() && self.totals[i].procedure != *procedure
            && !crate::text::not_after(procedure.as_str(), self.totals[i].procedure.as_str())
            invariant
                *self == *old(self),
                start == self@.totals,
                i <= self.totals@.len(),
                forall|k: int|
                    0 <= k < i ==> (#[trigger] start[k]).procedure != procedure@
                        && !crate::text::text_le(procedure@, start[k].procedure),
            decreases self.totals@.len() - i,
        {
            assert(start[i as int].procedure == self.totals@[i as int].procedure@);
            i += 1;
        }
        proof {
            counted_past(start, i as nat, procedure@, cycles as nat, entered);
        }
        let ghost rest = start.skip(i as int);
        if i < self.totals.len() && self.totals[i].procedure == *procedure {
            let ghost t = start[i as int];
            proof {
                part_of_sum(start, i as int);
                assert(t == self.totals@[i as int]@);
                assert(rest[0] == t);
            }
            let totals = ProcedureTotals {
                cycles: self.totals[i].totals.cycles + cycles,
                entries: self.totals[i].totals.entries + one,
            };
            self.totals[i].totals = totals;
            proof {
                assert(self@.totals =~= start.take(i as int) + counted(
                    rest,
                    procedure@,
                    cycles as nat,
                    entered,
                ));
            }
        } else {
            proof {
                if i < self.totals@.len() {
                    assert(rest[0] == self.totals@[i as int]@);
                }
            }
            self.totals.insert(
                i,
                NamedTotals {
                    procedure: procedure.clone(),
                    totals: ProcedureTotals { cycles, entries: one },
                },
            );
            proof {
                assert(self@.totals =~= start.take(i as int) + counted(
                    rest,
                    procedure@,
                    cycles as nat,
                    entered,
                ));
            }
        }
    }

    /// Takes down what a program did in a step: from which cycle to which it ran, how deep its
    /// calls are nested, and which function it is in.
    pub fn observe(&mut self, previous_cycle: usize, cycle: usize, depth: usize, procedure: Option<&str>)
        requires
            old(self)@.wf(),
            cycle > previous_cycle ==> old(self)@.total_cycles + cycle - previous_cycle
                <= usize::MAX,
        ensures
            final(self)@.wf(),
            final(self)@ == old(self)@.after(
                (StepView {
                    previous: previous_cycle as nat,
                    cycle: cycle as nat,
                    depth: depth as nat,
                    procedure: match procedure {
                        Some(name) => Some(name@),
                        None => None,
                    },
                }),
            ),
    {
        let ghost step = StepView {
            previous: previous_cycle as nat,
            cycle: cycle as nat,
            depth: depth as nat,
            procedure: match procedure {
                Some(name) => Some(name@),
                None => None,
            },
        };
        let ghost start = self@;
        if cycle <= previous_cycle {
            return;
        }
        let delta: usize = cycle - previous_cycle;
        let name = match procedure {
            Some(name) => name.to_owned(),
            None => "<unknown>".to_owned(),
        };
        let entered = match &self.current {
            Some(current) => *current != name,
            None => true,
        };
        proof {
            entries_within_cycles(start.totals);
            a_step_keeps_the_sums(start, step);
        }
        self.total_cycles = self.total_cycles + delta;
        self.count(&name, delta, entered);
        if entered {
            self.entries.push(
                TraceEntry { cycle: previous_cycle, depth, procedure: name.clone() },
            );
            proof {
                assert(self@.entries =~= start.entries.push(
                    EntryView { cycle: step.previous, depth: step.depth, procedure: name@ },
                ));
            }
        }
        self.current = Some(name);
    }

    /// Takes down why the program failed.
    pub fn fail(&mut self, error: String)
        ensures
            final(self)@ == (TraceView { error: Some(error@), ..old(self)@ }),
    {
        self.error = Some(error);
    }

    /// The trace of some steps; where the program failed behind them, with the failure.
    pub fn collect(steps: &Vec<TraceStep>, error: Option<String>) -> (r: Self)
        requires
            trace_of(step_views(steps@)).total_cycles <= usize::MAX,
        ensures
            r@.wf(),
            r@ == (TraceView {
                error: crate::debug::op::text_view(error),
                ..trace_of(step_views(steps@))
            }),
    {
        let ghost views = step_views(steps@);
        let mut trace = FunctionTrace::new();
        let mut i: usize = 0;
        proof {
            assert(views.take(0) =~= Seq::<StepView>::empty());
        }
        while i < steps.len()
            invariant
                i <= steps@.len(),
                views == step_views(steps@),
                trace_of(views).total_cycles <= usize::MAX,
                trace@ == trace_of(views.take(i as int)),
                trace@.wf(),
            decreases steps@.len() - i,
        {
            let step = &steps[i];
            proof {
                assert(views.take(i + 1).drop_last() =~= views.take(i as int));
                assert(views.take(i + 1).last() == step@);
                cycles_grow(views, i + 1);
            }
            let procedure = match &step.procedure {
                Some(name) => Some(name.as_str()),
                None => None,
            };
            trace.observe(step.previous_cycle, step.cycle, step.depth, procedure);
            i += 1;
        }
        proof {
            assert(views.take(i as int) =~= views);
            no_failure(views);
        }
        if let Some(error) = error {
            trace.fail(error);
        }
        trace
    }

    /// Where the program went on, in order.
    pub fn entries(&self) -> (r: &Vec<TraceEntry>)
        ensures
            entry_views(r@) == self@.entries,
    {
        &self.entries
    }

    /// What the functions add up to, by name.
    pub fn totals(&self) -> (r: &Vec<NamedTotals>)
        ensures
            totals_views(r@) == self@.totals,
    {
        &self.totals
    }

    /// How many cycles the program ran.
    pub fn total_cycles(&self) -> (r: usize)
        ensures
            r == self@.total_cycles,
    {
        self.total_cycles
    }

    /// Why the program failed.
    pub fn error(&self) -> (r: &Option<String>)
        ensures
            crate::debug::op::text_view(*r) == self@.error,
    {
        &self.error
    }
}

/// The views of steps.
pub open spec fn step_views(steps: Seq<TraceStep>) -> Seq<StepView> {
    steps.map_values(|s: TraceStep| s@)
}

/// More steps do not take fewer cycles.
proof fn cycles_grow(steps: Seq<StepView>, n: int)
    requires
        0 <= n <= steps.len(),
    ensures
        trace_of(steps.take(n)).total_cycles <= trace_of(steps).total_cycles,
    decreases steps.len(),
{
    if n < steps.len() {
        assert(steps.drop_last().take(n) =~= steps.take(n));
        cycles_grow(steps.drop_last(), n);
    } else {
        assert(steps.take(n) =~= steps);
    }
}

/// Steps by themselves are no failure.
proof fn no_failure(steps: Seq<StepView>)
    ensures
        trace_of(steps).error is None,
    decreases steps.len(),
{
    if steps.len() > 0 {
        no_failure(steps.drop_last());
    }
}

/// Where no function has more entries than cycles, there are not more entries than cycles.
proof fn entries_within_cycles(totals: Seq<TotalsView>)
    requires
        forall|i: int|
            0 <= i < totals.len() ==> (#[trigger] totals[i]).entries <= totals[i].cycles,
    ensures
        entries_sum(totals) <= cycles_sum(totals),
    decreases totals.len(),
{
    if totals.len() > 0 {
        assert forall|i: int| 0 <= i < totals.skip(1).len() implies (
        #[trigger] totals.skip(1)[i]).entries <= totals.skip(1)[i].cycles by {
            assert(totals.skip(1)[i] == totals[i + 1]);
        }
        entries_within_cycles(totals.skip(1));
        assert(totals[0].entries <= totals[0].cycles);
    }
}

// ---------------------------------------------------------------------------------------------
// The summary
// ---------------------------------------------------------------------------------------------

/// A function comes before another in the summary: it takes more cycles, or as many and its name
/// comes first.
pub open spec fn ranks_before(a: TotalsView, b: TotalsView) -> bool {
    a.cycles > b.cycles || (a.cycles == b.cycles && crate::text::text_le(a.procedure, b.procedure))
}

/// A function put in its place.
pub open spec fn rank_inserted(ranked: Seq<TotalsView>, t: TotalsView) -> Seq<TotalsView>
    decreases ranked.len(),
{
    if ranked.len() == 0 {
        seq![t]
    } else if ranks_before(t, ranked[0]) {
        seq![t] + ranked
    } else {
        seq![ranked[0]] + rank_inserted(ranked.skip(1), t)
    }
}

/// The functions in the order of the summary.
pub open spec fn ranked(totals: Seq<TotalsView>) -> Seq<TotalsView>
    decreases totals.len(),
{
    if totals.len() == 0 {
        Seq::empty()
    } else {
        rank_inserted(ranked(totals.drop_last()), totals.last())
    }
}

/// Each function comes before the next.
pub open spec fn in_rank_order(ranked: Seq<TotalsView>) -> bool {
    forall|i: int, j: int|
        0 <= i < j < ranked.len() ==> ranks_before(#[trigger] ranked[i], #[trigger] ranked[j])
}

/// The summary names the functions that were traced, each as often as it was, those that take the
/// most cycles first, and those that take as many by name.
pub proof fn summary_is_ranked(totals: Seq<TotalsView>)
    ensures
        in_rank_order(ranked(totals)),
        ranked(totals).to_multiset() == totals.to_multiset(),
    decreases totals.len(),
{
    broadcast use vstd::seq_lib::group_to_multiset_ensures;

    if totals.len() > 0 {
        summary_is_ranked(totals.drop_last());
        rank_inserted_order(ranked(totals.drop_last()), totals.last());
        assert(totals =~= totals.drop_last().push(totals.last()));
    }
}

proof fn rank_inserted_order(list: Seq<TotalsView>, t: TotalsView)
    requires
        in_rank_order(list),
    ensures
        in_rank_order(rank_inserted(list, t)),
        rank_inserted(list, t).to_multiset() == list.to_multiset().insert(t),
        forall|i: int|
            0 <= i < rank_inserted(list, t).len() ==> {
                let x = #[trigger] rank_inserted(list, t)[i];
                x == t || exists|k: int| 0 <= k < list.len() && #[trigger] list[k] == x
            },
    decreases list.len(),
{
    broadcast use vstd::seq_lib::group_to_multiset_ensures;

    let after = rank_inserted(list, t);
    if list.len() == 0 {
        assert(after =~= list.push(t));
    } else if ranks_before(t, list[0]) {
        assert forall|i: int, j: int| 0 <= i < j < after.len() implies ranks_before(
            #[trigger] after[i],
            #[trigger] after[j],
        ) by {
            assert(after[j] == list[j - 1]);
            if i > 0 {
                assert(after[i] == list[i - 1]);
            } else if j > 1 {
                assert(ranks_before(list[0], list[j - 1]));
                ranks_transitive(t, list[0], list[j - 1]);
            }
        }
        assert forall|i: int| 0 <= i < after.len() implies {
            let x = #[trigger] after[i];
            x == t || exists|k: int| 0 <= k < list.len() && #[trigger] list[k] == x
        } by {
            if i > 0 {
                assert(after[i] == list[i - 1]);
            }
        }
        assert(after =~= list.insert(0, t));
    } else {
        let others = list.skip(1);
        assert forall|i: int, j: int| 0 <= i < j < others.len() implies ranks_before(
            #[trigger] others[i],
            #[trigger] others[j],
        ) by {
            assert(others[i] == list[i + 1] && others[j] == list[j + 1]);
        }
        rank_inserted_order(others, t);
        let rest = rank_inserted(others, t);
        crate::text::text_le_total(t.procedure, list[0].procedure);
        assert forall|j: int| 0 <= j < rest.len() implies ranks_before(list[0], #[trigger] rest[j]) by {
            if rest[j] != t {
                let k = choose|k: int| 0 <= k < others.len() && #[trigger] others[k] == rest[j];
                assert(others[k] == list[k + 1]);
            }
        }
        assert forall|i: int, j: int| 0 <= i < j < after.len() implies ranks_before(
            #[trigger] after[i],
            #[trigger] after[j],
        ) by {
            assert(after[j] == rest[j - 1]);
            if i > 0 {
                assert(after[i] == rest[i - 1]);
            }
        }
        assert forall|i: int| 0 <= i < after.len() implies {
            let x = #[trigger] after[i];
            x == t || exists|k: int| 0 <= k < list.len() && #[trigger] list[k] == x
        } by {
            if i > 0 {
                assert(after[i] == rest[i - 1]);
                if rest[i - 1] != t {
                    let k = choose|k: int|
                        0 <= k < others.len() && #[trigger] others[k] == rest[i - 1];
                    assert(list[k + 1] == rest[i - 1]);
                }
            } else {
                assert(after[0] == list[0]);
            }
        }
        assert(after =~= rest.insert(0, list[0]));
        assert(list =~= others.insert(0, list[0]));
        assert(after.to_multiset() =~= list.to_multiset().insert(t));
    }
}

proof fn ranks_transitive(a: TotalsView, b: TotalsView, c: TotalsView)
    requires
        ranks_before(a, b),
        ranks_before(b, c),
    ensures
        ranks_before(a, c),
{
    if a.cycles == b.cycles && b.cycles == c.cycles {
        crate::text::text_le_transitive(a.procedure, b.procedure, c.procedure);
    }
}

proof fn rank_inserted_past(list: Seq<TotalsView>, n: nat, t: TotalsView)
    requires
        n <= list.len(),
        forall|i: int| 0 <= i < n ==> !ranks_before(t, #[trigger] list[i]),
    ensures
        rank_inserted(list, t) == list.take(n as int) + rank_inserted(list.skip(n as int), t),
    decreases n,
{
    if n == 0 {
        assert(list.skip(0) =~= list);
        assert(list.take(0) + rank_inserted(list, t) =~= rank_inserted(list, t));
    } else {
        let others = list.skip(1);
        assert forall|i: int| 0 <= i < n - 1 implies !ranks_before(t, #[trigger] others[i]) by {
            assert(others[i] == list[i + 1]);
        }
        rank_inserted_past(others, (n - 1) as nat, t);
        assert(others.skip(n - 1) =~= list.skip(n as int));
        assert(seq![list[0]] + (others.take(n - 1) + rank_inserted(list.skip(n as int), t))
            =~= list.take(n as int) + rank_inserted(list.skip(n as int), t));
    }
}

fn insert_ranked(list: &mut Vec<NamedTotals>, t: NamedTotals)
    ensures
        totals_views(final(list)@) == rank_inserted(totals_views(old(list)@), t@),
{
    let ghost start = totals_views(list@);
    let mut i: usize = 0;
    while i < list.len() && !(t.totals.cycles > list[i].totals.cycles || (t.totals.cycles
        == list[i].totals.cycles && crate::text::not_after(
        t.procedure.as_str(),
        list[i].procedure.as_str(),
    )))
        invariant
            *list == *old(list),
            start == totals_views(list@),
            i <= list@.len(),
            forall|k: int| 0 <= k < i ==> !ranks_before(t@, #[trigger] start[k]),
        decreases list@.len() - i,
    {
        assert(start[i as int] == list@[i as int]@);
        i += 1;
    }
    proof {
        rank_inserted_past(start, i as nat, t@);
        if i < list@.len() {
            assert(start.skip(i as int)[0] == list@[i as int]@);
        }
    }
    list.insert(i, t);
    proof {
        assert(totals_views(list@) =~= start.take(i as int) + rank_inserted(
            start.skip(i as int),
            t@,
        ));
    }
}

/// A number, filled up on the left with blanks.
pub open spec fn column(n: nat, width: nat) -> Seq<char> {
    crate::text::padded_left(crate::text::decimal(n), ' ', width)
}

/// The line for one place where the program went on.
pub open spec fn entry_line(e: EntryView) -> Seq<char> {
    column(e.cycle, 10) + "  "@ + crate::text::repeated(' ', 2 * e.depth) + e.procedure + "\n"@
}

/// The lines for the first `n` places where the program went on.
pub open spec fn entry_lines(entries: Seq<EntryView>, n: nat) -> Seq<char>
    decreases n,
{
    if n == 0 {
        Seq::empty()
    } else {
        entry_lines(entries, (n - 1) as nat) + entry_line(entries[n - 1])
    }
}

/// The line of the summary for one function.
pub open spec fn totals_line(t: TotalsView) -> Seq<char> {
    column(t.cycles, 10) + "  "@ + column(t.entries, 7) + "  "@ + t.procedure + "\n"@
}

/// The lines of the summary for the first `n` functions.
pub open spec fn totals_lines(totals: Seq<TotalsView>, n: nat) -> Seq<char>
    decreases n,
{
    if n == 0 {
        Seq::empty()
    } else {
        totals_lines(totals, (n - 1) as nat) + totals_line(totals[n - 1])
    }
}

impl TraceView {
    /// The text of the trace.
    pub open spec fn text(self) -> Seq<char> {
        "Function trace: "@ + crate::text::decimal(self.entries.len()) + " transition(s), "@
            + crate::text::decimal(self.totals.len()) + " unique function(s), "@
            + crate::text::decimal(self.total_cycles) + " cycle(s)\n\n     cycle  function\n"@
            + entry_lines(self.entries, self.entries.len())
            + "\nFunctions by self-cycles:\n    cycles  entries  function\n"@ + totals_lines(
            ranked(self.totals),
            ranked(self.totals).len(),
        )
    }
}

fn show_column(n: usize, width: usize) -> (r: String)
    ensures
        r@ == column(n as nat, width as nat),
{
    crate::text::pad_left(crate::text::render_usize(n).as_str(), ' ', width)
}

impl FunctionTrace {
    /// The trace as text: where the program went on, in order, followed by what the functions add
    /// up to, those that take the most cycles first.
    pub fn write_text(&self) -> (r: String)
        ensures
            r@ == self@.text(),
    {
        let mut out = "Function trace: ".to_owned();
        out.append(crate::text::render_usize(self.entries.len()).as_str());
        out.append(" transition(s), ");
        out.append(crate::text::render_usize(self.totals.len()).as_str());
        out.append(" unique function(s), ");
        out.append(crate::text::render_usize(self.total_cycles).as_str());
        out.append(" cycle(s)\n\n     cycle  function\n");
        let mut lines = String::new();
        let mut i: usize = 0;
        while i < self.entries.len()
            invariant
                i <= self.entries@.len(),
                lines@ == entry_lines(self@.entries, i as nat),
            decreases self.entries@.len() - i,
        {
            let entry = &self.entries[i];
            let mut line = show_column(entry.cycle, 10);
            line.append("  ");
            let indent = crate::text::repeat(' ', entry.depth);
            line.append(indent.as_str());
            line.append(indent.as_str());
            line.append(entry.procedure.as_str());
            line.append("\n");
            proof {
                let e = self@.entries[i as int];
                assert(e == self.entries@[i as int]@);
                assert(line@ =~= entry_line(e));
            }
            lines.append(line.as_str());
            i += 1;
        }
        out.append(lines.as_str());
        out.append("\nFunctions by self-cycles:\n    cycles  entries  function\n");
        let mut list: Vec<NamedTotals> = Vec::new();
        let mut k: usize = 0;
        proof {
            assert(totals_views(list@) =~= ranked(self@.totals.take(0)));
        }
        while k < self.totals.len()
            invariant
                k <= self.totals@.len(),
                totals_views(list@) == ranked(self@.totals.take(k as int)),
            decreases self.totals@.len() - k,
        {
            let t = NamedTotals {
                procedure: self.totals[k].procedure.clone(),
                totals: self.totals[k].totals,
            };
            proof {
                assert(self@.totals.take(k + 1).drop_last() =~= self@.totals.take(k as int));
                assert(self@.totals.take(k + 1).last() == t@);
            }
            insert_ranked(&mut list, t);
            k += 1;
        }
        proof {
            assert(self@.totals.take(k as int) =~= self@.totals);
        }
        let mut rows = String::new();
        let mut j: usize = 0;
        while j < list.len()
            invariant
                j <= list@.len(),
                totals_views(list@) == ranked(self@.totals),
                rows@ == totals_lines(ranked(self@.totals), j as nat),
            decreases list@.len() - j,
        {
            let t = &list[j];
            let mut line = show_column(t.totals.cycles, 10);
            line.append("  ");
            line.append(show_column(t.totals.entries, 7).as_str());
            line.append("  ");
            line.append(t.procedure.as_str());
            line.append("\n");
            proof {
                assert(ranked(self@.totals)[j as int] == list@[j as int]@);
                assert(line@ =~= totals_line(list@[j as int]@));
            }
            rows.append(line.as_str());
            j += 1;
        }
        out.append(rows.as_str());
        proof {
            assert(ranked(self@.totals).len() == list@.len());
        }
        out
    }
}

/// Sets up the program of a snapshot to be run again, with the code and the changes that were
/// recorded.
pub fn set_up(snapshot: ReplaySnapshot) -> (r: Result<(DebugExecutor, DebuggerHost), String>)
    requires
        snapshot.wf(),
    ensures
        ({
            let start = crate::exec::executor::started(
                snapshot@.stack_inputs,
                snapshot@.advice_inputs,
                RunOptions { enable_tracing: true, enable_debugging: true, ..snapshot.options },
                snapshot.program,
            );
            match r {
                Ok((executor, host)) => {
                    &&& executor.wf()
                    &&& executor.resume_ctx matches Some(context)
                    &&& start == Ok::<_, Seq<char>>((executor.processor, context))
                    &&& crate::exec::executor::is_fresh(
                        executor.processor,
                        snapshot@.stack_inputs,
                    )
                    &&& executor.cycle == 0
                    &&& !executor.stopped
                    &&& host.code() == crate::exec::host::code_of(snapshot.mast_forests@)
                    &&& host.event_replay@ == snapshot.event_log@
                },
                Err(m) => start matches Err(message) && message == m@,
            }
        }),
{
    let executor = Executor::from_config(
        ExecutionConfig {
            inputs: snapshot.stack_inputs,
            advice_inputs: snapshot.advice_inputs,
            options: snapshot.options,
        },
    );
    proof {
        assert(crate::exec::executor::library_forests(executor.libraries@) + snapshot.mast_forests@
            =~= snapshot.mast_forests@);
    }
    executor.into_debug_with_replay(
        &snapshot.program,
        snapshot.mast_forests,
        queue_of(snapshot.event_log),
    )
}

pub(crate) fn queue_of(events: Vec<Vec<AdviceMutation>>) -> (r: VecDeque<Vec<AdviceMutation>>)
    ensures
        r@ == events@,
{
    let mut queue: VecDeque<Vec<AdviceMutation>> = VecDeque::new();
    let mut events = events;
    let ghost all = events@;
    while events.len() > 0
        invariant
            events@ + queue@ == all,
        decreases events@.len(),
    {
        let ghost before = events@ + queue@;
        if let Some(event) = events.pop() {
            queue.push_front(event);
            proof {
                assert(events@ + queue@ =~= before);
            }
        }
    }
    proof {
        assert(queue@ =~= all);
    }
    queue
}

/// What is said before a snapshot is traced.
pub fn banner(path: &str, events: usize, forests: usize) -> (r: String)
    ensures
        r@ == "Tracing replay snapshot "@ + path@ + " ("@ + crate::text::decimal(events as nat)
            + " event(s), "@ + crate::text::decimal(forests as nat) + " forest(s))"@,
{
    let mut out = "Tracing replay snapshot ".to_owned();
    out.append(path);
    out.append(" (");
    out.append(crate::text::render_usize(events).as_str());
    out.append(" event(s), ");
    out.append(crate::text::render_usize(forests).as_str());
    out.append(" forest(s))");
    out
}

/// What is said when the traced program failed.
pub fn failure(cycle: usize, error: &str) -> (r: String)
    ensures
        r@ == "execution failed at cycle "@ + crate::text::decimal(cycle as nat) + ": "@ + error@,
{
    let mut out = "execution failed at cycle ".to_owned();
    out.append(crate::text::render_usize(cycle).as_str());
    out.append(": ");
    out.append(error);
    out
}

// ---------------------------------------------------------------------------------------------
// What holds of every summary
// ---------------------------------------------------------------------------------------------

/// A step that took cycles is counted for the function it was in, or for `<unknown>` where that is
/// not known. Where the program was in another function before, or in none, it goes on in this one
/// from the cycle in which the step began, as deep as the calls are nested. A step that took none
/// leaves no mark.
pub proof fn a_step_counts_for_its_function(trace: TraceView, step: StepView, name: Seq<char>)
    requires
        step.procedure == Some(name) || (step.procedure is None && name == "<unknown>"@),
    ensures
        ({
            let after = trace.after(step);
            let entry = EntryView { cycle: step.previous, depth: step.depth, procedure: name };
            &&& step.cycle <= step.previous ==> after == trace
            &&& step.cycle > step.previous ==> {
                &&& after.total_cycles == trace.total_cycles + step.cycle - step.previous
                &&& after.current == Some(name)
                &&& after.error == trace.error
                &&& trace.current == Some(name) ==> after.entries == trace.entries
                &&& trace.current != Some(name) ==> after.entries == trace.entries.push(entry)
            }
        }),
{
}

/// In the step that counts for a function, its cycles go up by those of the step, its entries by one
/// where the program went on in it, and nothing that is counted for another function changes.
pub proof fn a_step_counts_for_no_other_function(
    trace: TraceView,
    step: StepView,
    name: Seq<char>,
    other: Seq<char>,
)
    requires
        trace.wf(),
        step.procedure == Some(name) || (step.procedure is None && name == "<unknown>"@),
        step.cycle > step.previous,
    ensures
        ({
            let after = trace.after(step).totals;
            &&& cycles_of(after, name) == cycles_of(trace.totals, name) + step.cycle - step.previous
            &&& entries_of(after, name) == entries_of(trace.totals, name) + if trace.current == Some(
                name,
            ) {
                0int
            } else {
                1
            }
            &&& other != name ==> cycles_of(after, other) == cycles_of(trace.totals, other)
                && entries_of(after, other) == entries_of(trace.totals, other)
        }),
{
    let entered = trace.current != Some(name);
    counted_for(trace.totals, name, step.cycles(), entered, name);
    counted_for(trace.totals, name, step.cycles(), entered, other);
}

/// The function that a program is in is that of its current instruction, and calls are nested as
/// deep as there are frames below the outermost one.
pub proof fn a_step_is_where_the_program_is(executor: DebugExecutor, previous_cycle: usize)
    ensures
        ({
            let step = step_of(executor, previous_cycle);
            let frames = executor.callstack@.frames.len();
            &&& step.previous == previous_cycle
            &&& step.cycle == executor.cycle
            &&& frames > 0 ==> step.depth + 1 == frames
            &&& frames == 0 ==> step.depth == 0
            &&& match (executor.current_asmop, step.procedure) {
                (Some(op), Some(name)) => name == op.context_name@,
                (None, None) => true,
                _ => false,
            }
        }),
{
}

/// In the summary no function stands behind one that takes fewer cycles, nor behind one that takes
/// as many and whose name comes later.
pub proof fn the_most_cycles_come_first(totals: Seq<TotalsView>, i: int, j: int)
    requires
        0 <= i < j < ranked(totals).len(),
    ensures
        ranked(totals)[i].cycles >= ranked(totals)[j].cycles,
        ranked(totals)[i].cycles == ranked(totals)[j].cycles ==> crate::text::text_le(
            ranked(totals)[i].procedure,
            ranked(totals)[j].procedure,
        ),
        ranked(totals).to_multiset() == totals.to_multiset(),
{
    summary_is_ranked(totals);
    assert(ranks_before(ranked(totals)[i], ranked(totals)[j]));
}

/// Whether a text is a number in decimal, with nothing but blanks in front of it, and at least as
/// wide as its column.
pub open spec fn is_cell(s: Seq<char>, n: nat, width: nat) -> bool {
    exists|blanks: Seq<char>, number: Seq<char>|
        {
            &&& s == #[trigger] (blanks + number)
            &&& forall|i: int| 0 <= i < blanks.len() ==> #[trigger] blanks[i] == ' '
            &&& crate::text::is_numeral(number, 10)
            &&& crate::text::place_value(number, 10) == n
            &&& if number.len() < width {
                s.len() == width
            } else {
                s == number
            }
        }
}

proof fn columns_are_cells(n: nat, width: nat)
    ensures
        is_cell(column(n, width), n, width),
{
    let number = crate::text::decimal(n);
    let s = column(n, width);
    crate::text::a_number_is_what_its_digits_stand_for(n, 10);
    crate::text::a_padded_text_ends_with_itself(number, ' ', width);
    let blanks = s.take(s.len() - number.len());
    assert(s =~= blanks + number) by {
        assert(s.subrange(s.len() - number.len(), s.len() as int) =~= number);
    }
    if number.len() >= width {
        assert(s =~= number);
    }
}

/// The counts of a function can be read off its line in the summary: the line is the number of its
/// cycles, the number of its entries and its name, with two blanks between them.
pub proof fn a_summary_line_is_read_back(t: TotalsView)
    ensures
        exists|cycles: Seq<char>, entries: Seq<char>|
            {
                &&& #[trigger] is_cell(cycles, t.cycles, 10)
                &&& #[trigger] is_cell(entries, t.entries, 7)
                &&& totals_line(t) == cycles + seq![' ', ' '] + entries + seq![' ', ' ']
                    + t.procedure + seq!['\n']
            },
{
    reveal_strlit("  ");
    reveal_strlit("\n");
    assert("  "@ =~= seq![' ', ' ']);
    assert("\n"@ =~= seq!['\n']);
    columns_are_cells(t.cycles, 10);
    columns_are_cells(t.entries, 7);
    assert(is_cell(column(t.cycles, 10), t.cycles, 10) && is_cell(
        column(t.entries, 7),
        t.entries,
        7,
    ));
}

/// Two functions whose lines in the summary are the same have the same counts and the same name.
pub proof fn summary_lines_tell_functions_apart(a: TotalsView, b: TotalsView)
    requires
        totals_line(a) == totals_line(b),
    ensures
        a.cycles == b.cycles,
        a.entries == b.entries,
        a.procedure == b.procedure,
{
    reveal_strlit("  ");
    reveal_strlit("\n");
    let line = totals_line(a);
    let (ra, rb) = (
        "  "@ + column(a.entries, 7) + "  "@ + a.procedure + "\n"@,
        "  "@ + column(b.entries, 7) + "  "@ + b.procedure + "\n"@,
    );
    assert(line =~= column(a.cycles, 10) + ra);
    assert(line =~= column(b.cycles, 10) + rb);
    assert(ra[0] == ' ' && rb[0] == ' ');
    a_column_ends_at_a_blank(a.cycles, b.cycles, 10, ra, rb);
    let (sa, sb) = ("  "@ + a.procedure + "\n"@, "  "@ + b.procedure + "\n"@);
    assert(ra.skip(2) =~= column(a.entries, 7) + sa);
    assert(rb.skip(2) =~= column(b.entries, 7) + sb);
    assert(sa[0] == ' ' && sb[0] == ' ');
    a_column_ends_at_a_blank(a.entries, b.entries, 7, sa, sb);
    assert(a.procedure =~= sa.subrange(2, sa.len() - 1));
    assert(b.procedure =~= sb.subrange(2, sb.len() - 1));
}

/// A column ends where a blank follows its digits, so that it can be told from what follows.
proof fn a_column_ends_at_a_blank(m: nat, n: nat, width: nat, x: Seq<char>, y: Seq<char>)
    requires
        column(m, width) + x == column(n, width) + y,
        x.len() > 0 && x[0] == ' ',
        y.len() > 0 && y[0] == ' ',
    ensures
        m == n,
        x == y,
{
    let (a, b) = (column(m, width), column(n, width));
    let (p, q) = (crate::text::decimal(m), crate::text::decimal(n));
    crate::text::a_number_is_what_its_digits_stand_for(m, 10);
    crate::text::a_number_is_what_its_digits_stand_for(n, 10);
    crate::text::a_padded_text_ends_with_itself(p, ' ', width);
    crate::text::a_padded_text_ends_with_itself(q, ' ', width);
    let whole = a + x;
    assert(whole == b + y);
    if a.len() < b.len() {
        // The blank behind the shorter column would stand among the digits of the longer one.
        assert(b.len() > width);
        assert(b =~= q);
        assert(whole[a.len() as int] == x[0]);
        assert(whole[a.len() as int] == q[a.len() as int]);
        assert(false);
    }
    if b.len() < a.len() {
        assert(a =~= p);
        assert(whole[b.len() as int] == y[0]);
        assert(whole[b.len() as int] == p[b.len() as int]);
        assert(false);
    }
    assert(a =~= whole.take(a.len() as int));
    assert(b =~= whole.take(a.len() as int));
    assert(x =~= whole.skip(a.len() as int));
    assert(y =~= whole.skip(a.len() as int));
    assert(a.subrange(a.len() - p.len(), a.len() as int) =~= p);
    assert(b.subrange(b.len() - q.len(), b.len() as int) =~= q);
    if p.len() < q.len() {
        let i = a.len() - q.len();
        assert(a[i] == ' ');
        assert(b[i] == q[0]);
        assert(false);
    }
    if q.len() < p.len() {
        let i = a.len() - p.len();
        assert(b[i] == ' ');
        assert(a[i] == p[0]);
        assert(false);
    }
    assert(p == q);
}

/// Whether a text is so many blanks.
pub open spec fn is_blank(s: Seq<char>, n: nat) -> bool {
    s.len() == n && forall|i: int| 0 <= i < n ==> #[trigger] s[i] == ' '
}

/// The line for a place where the program went on is the cycle, and the name of the function, set
/// in by two blanks for each call that it is nested in.
pub proof fn an_entry_line_is_read_back(e: EntryView)
    ensures
        exists|cycle: Seq<char>, indent: Seq<char>|
            {
                &&& #[trigger] is_cell(cycle, e.cycle, 10)
                &&& #[trigger] is_blank(indent, 2 * e.depth)
                &&& entry_line(e) == cycle + seq![' ', ' '] + indent + e.procedure + seq!['\n']
            },
{
    reveal_strlit("  ");
    reveal_strlit("\n");
    assert("  "@ =~= seq![' ', ' ']);
    assert("\n"@ =~= seq!['\n']);
    columns_are_cells(e.cycle, 10);
    let cycle = column(e.cycle, 10);
    let indent = crate::text::repeated(' ', 2 * e.depth);
    assert(is_cell(cycle, e.cycle, 10) && is_blank(indent, 2 * e.depth));
    assert(entry_line(e) == cycle + seq![' ', ' '] + indent + e.procedure + seq!['\n']);
}

/// The text of a trace counts the transitions, the functions and the cycles; then it has a line for
/// each transition, in order, and a line for each function, in the order of the summary.
pub proof fn the_text_of_a_trace_is_read_back(trace: TraceView)
    ensures
        exists|n: Seq<char>, functions: Seq<char>, cycles: Seq<char>|
            {
                &&& #[trigger] crate::text::shows_number(n, trace.entries.len() as int)
                &&& #[trigger] crate::text::shows_number(functions, trace.totals.len() as int)
                &&& #[trigger] crate::text::shows_number(cycles, trace.total_cycles as int)
                &&& trace.text() == "Function trace: "@ + n + " transition(s), "@ + functions
                    + " unique function(s), "@ + cycles
                    + " cycle(s)\n\n     cycle  function\n"@ + trace.entries.map_values(
                    |e: EntryView| entry_line(e),
                ).flatten() + "\nFunctions by self-cycles:\n    cycles  entries  function\n"@
                    + ranked(trace.totals).map_values(|t: TotalsView| totals_line(t)).flatten()
            },
{
    lines_of_entries(trace.entries, trace.entries.len());
    lines_of_totals(ranked(trace.totals), ranked(trace.totals).len());
    assert(trace.entries.take(trace.entries.len() as int) =~= trace.entries);
    assert(ranked(trace.totals).take(ranked(trace.totals).len() as int) =~= ranked(trace.totals));
    crate::text::a_number_is_what_its_digits_stand_for(trace.entries.len(), 10);
    crate::text::a_number_is_what_its_digits_stand_for(trace.totals.len(), 10);
    crate::text::a_number_is_what_its_digits_stand_for(trace.total_cycles, 10);
    let n = crate::text::decimal(trace.entries.len());
    let functions = crate::text::decimal(trace.totals.len());
    let cycles = crate::text::decimal(trace.total_cycles);
    assert(crate::text::shows_number(n, trace.entries.len() as int));
    assert(crate::text::shows_number(functions, trace.totals.len() as int));
    assert(crate::text::shows_number(cycles, trace.total_cycles as int));
}

proof fn lines_of_entries(entries: Seq<EntryView>, n: nat)
    requires
        n <= entries.len(),
    ensures
        entry_lines(entries, n) == entries.take(n as int).map_values(
            |e: EntryView| entry_line(e),
        ).flatten(),
    decreases n,
{
    let f = |e: EntryView| entry_line(e);
    let lines = entries.take(n as int).map_values(f);
    if n > 0 {
        lines_of_entries(entries, (n - 1) as nat);
        let front = entries.take(n - 1).map_values(f);
        front.lemma_flatten_push(entry_line(entries[n - 1]));
        assert(lines =~= front.push(entry_line(entries[n - 1])));
    } else {
        assert(lines =~= Seq::<Seq<char>>::empty());
    }
}

proof fn lines_of_totals(totals: Seq<TotalsView>, n: nat)
    requires
        n <= totals.len(),
    ensures
        totals_lines(totals, n) == totals.take(n as int).map_values(
            |t: TotalsView| totals_line(t),
        ).flatten(),
    decreases n,
{
    let f = |t: TotalsView| totals_line(t);
    let lines = totals.take(n as int).map_values(f);
    if n > 0 {
        lines_of_totals(totals, (n - 1) as nat);
        let front = totals.take(n - 1).map_values(f);
        front.lemma_flatten_push(totals_line(totals[n - 1]));
        assert(lines =~= front.push(totals_line(totals[n - 1])));
    } else {
        assert(lines =~= Seq::<Seq<char>>::empty());
    }
}

/// A trace of nothing has no entries and no functions, and no cycles were counted; the first step
/// that takes a cycle is its first entry, and all of its cycles count for one function.
pub proof fn a_trace_begins_with_nothing(step: StepView)
    ensures
        TraceView::nothing().entries.len() == 0,
        TraceView::nothing().totals.len() == 0,
        TraceView::nothing().total_cycles == 0,
        TraceView::nothing().current is None,
        TraceView::nothing().error is None,
        step.cycle > step.previous ==> ({
            let after = TraceView::nothing().after(step);
            &&& after.entries.len() == 1
            &&& after.totals.len() == 1
            &&& after.totals[0].entries == 1
            &&& after.total_cycles == step.cycle - step.previous
            &&& after.totals[0].cycles == step.cycle - step.previous
            &&& step.procedure matches Some(name) ==> after.totals[0].procedure == name
                && after.entries[0].procedure == name
        }),
{
}

/// The entries that name a function are counted one by one.
pub proof fn entries_are_counted(entries: Seq<EntryView>, procedure: Seq<char>)
    ensures
        entries_naming(entries, procedure) == entries.filter(
            |e: EntryView| e.procedure == procedure,
        ).len(),
    decreases entries.len(),
{
    reveal(Seq::filter);
    if entries.len() > 0 {
        entries_are_counted(entries.drop_last(), procedure);
    }
}

/// The cycles and the entries of functions add up, one function after the other.
pub proof fn functions_add_up(a: Seq<TotalsView>, b: Seq<TotalsView>, t: TotalsView)
    ensures
        cycles_sum(a + b) == cycles_sum(a) + cycles_sum(b),
        entries_sum(a + b) == entries_sum(a) + entries_sum(b),
        cycles_sum(seq![t]) == t.cycles,
        entries_sum(seq![t]) == t.entries,
    decreases a.len(),
{
    reveal_with_fuel(cycles_sum, 2);
    reveal_with_fuel(entries_sum, 2);
    assert(seq![t].skip(1) =~= Seq::<TotalsView>::empty());
    if a.len() == 0 {
        assert(a + b =~= b);
    } else {
        functions_add_up(a.skip(1), b, t);
        assert((a + b).skip(1) =~= a.skip(1) + b);
    }
}

} // verus!
