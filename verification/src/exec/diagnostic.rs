//! What is known about a program when it fails in the midst of a transaction.
use miden_core::advice::AdviceInputs;
use vstd::prelude::*;
use vstd::string::*;

use crate::debug::op::TraceEvent;
use crate::exec::options::{RunOptions, StackInputs};

verus! {

/// Makes executors that report on failures.
#[derive(Debug)]
pub struct DiagnosticExecutorFactory;

/// An executor that runs a program to its end, and reports when it fails.
pub struct DiagnosticExecutor {
    pub stack_inputs: StackInputs,
    pub advice_inputs: AdviceInputs,
    pub options: RunOptions,
}

impl DiagnosticExecutorFactory {
    /// An executor with these inputs and limits.
    pub fn create_executor(
        stack_inputs: StackInputs,
        advice_inputs: AdviceInputs,
        options: RunOptions,
    ) -> (r: DiagnosticExecutor)
        ensures
            r == (DiagnosticExecutor { stack_inputs, advice_inputs, options }),
    {
        DiagnosticExecutor { stack_inputs, advice_inputs, options }
    }
}

impl DiagnosticExecutor {
    /// The limits that the program is run with: debugging and tracing are on, so that there is more
    /// to report.
    pub fn run_options(&self) -> (r: RunOptions)
        ensures
            r == (RunOptions { enable_tracing: true, enable_debugging: true, ..self.options }),
    {
        RunOptions { enable_tracing: true, enable_debugging: true, ..self.options }
    }
}

/// What the callbacks of a running program tell: how deep the calls are nested, and the state of
/// the program when it last called back.
#[derive(Debug)]
pub struct DiagnosticTracker {
    pub call_depth: usize,
    pub last_stack_state: Vec<u64>,
    pub last_cycle: u32,
}

/// How deep calls are nested after an event.
pub open spec fn depth_after(depth: usize, event: TraceEvent) -> int {
    match event {
        TraceEvent::FrameStart => depth + 1,
        TraceEvent::FrameEnd => if depth > 0 {
            depth - 1
        } else {
            0
        },
        _ => depth as int,
    }
}

/// How deep calls are nested after an event.
pub fn track_depth(depth: usize, event: TraceEvent) -> (r: usize)
    requires
        depth < usize::MAX,
    ensures
        r == depth_after(depth, event),
{
    match event {
        TraceEvent::FrameStart => depth + 1,
        TraceEvent::FrameEnd => if depth > 0 {
            depth - 1
        } else {
            0
        },
        _ => depth,
    }
}

/// A frame that starts and ends leaves the depth as it was; and the depth is never negative.
pub proof fn depth_is_balanced(depth: usize)
    requires
        depth < usize::MAX,
    ensures
        depth_after(depth_after(depth, TraceEvent::FrameStart) as usize, TraceEvent::FrameEnd)
            == depth,
        forall|event: TraceEvent| (#[trigger] depth_after(depth, event)) >= 0,
{
}

/// The first `n` values in square brackets, separated by commas.
pub open spec fn bracketed(values: Seq<u64>) -> Seq<char> {
    "["@ + crate::exec::executor::comma_separated(values) + "]"@
}

/// The values at the top of the stack that a report shows.
pub open spec fn top_values(stack: Seq<u64>) -> Seq<u64> {
    if stack.len() > crate::exec::trace::STACK_DEPTH {
        stack.take(crate::exec::trace::STACK_DEPTH as int)
    } else {
        stack
    }
}

impl DiagnosticTracker {
    /// A tracker of a program that has not called back.
    pub fn new() -> (r: Self)
        ensures
            r.call_depth == 0,
            r.last_stack_state@.len() == 0,
            r.last_cycle == 0,
    {
        DiagnosticTracker { call_depth: 0, last_stack_state: Vec::new(), last_cycle: 0 }
    }

    /// Notes the state of the program.
    pub fn capture_state(&mut self, stack: Vec<u64>, clk: u32)
        ensures
            *final(self) == (DiagnosticTracker {
                call_depth: old(self).call_depth,
                last_stack_state: stack,
                last_cycle: clk,
            }),
    {
        self.last_stack_state = stack;
        self.last_cycle = clk;
    }

    /// Notes what the program reports, and its state.
    pub fn on_trace(&mut self, stack: Vec<u64>, clk: u32, trace_id: u32)
        requires
            old(self).call_depth < usize::MAX,
        ensures
            final(self).call_depth == depth_after(old(self).call_depth, TraceEvent::of_id(trace_id)),
            final(self).last_stack_state == stack,
            final(self).last_cycle == clk,
    {
        self.capture_state(stack, clk);
        self.call_depth = track_depth(self.call_depth, TraceEvent::from_id(trace_id));
    }

    /// The text of the report on a failure.
    pub open spec fn report(&self, error: Seq<char>) -> Seq<char> {
        "\n=== Transaction Execution Failed ===\nError: "@ + error + "\nLast known cycle: "@
            + crate::text::decimal(self.last_cycle as nat) + "\nCall depth at failure: "@
            + crate::text::decimal(self.call_depth as nat) + "\n"@ + (
        if self.last_stack_state@.len() > 0 {
            "Last known stack state (top 16): "@ + bracketed(top_values(self.last_stack_state@))
                + "\n"@
        } else {
            Seq::empty()
        }) + "====================================\n\n"@
    }

    /// Reports on a failure.
    pub fn report_diagnostics(&self, error: &str) -> (r: String)
        ensures
            r@ == self.report(error@),
    {
        let mut out = "\n=== Transaction Execution Failed ===\nError: ".to_owned();
        out.append(error);
        out.append("\nLast known cycle: ");
        out.append(crate::text::render_decimal(self.last_cycle as u64).as_str());
        out.append("\nCall depth at failure: ");
        out.append(crate::text::render_usize(self.call_depth).as_str());
        out.append("\n");
        if self.last_stack_state.len() > 0 {
            let mut top: Vec<u64> = Vec::new();
            let mut i: usize = 0;
            while i < self.last_stack_state.len() && i < crate::exec::trace::STACK_DEPTH
                invariant
                    i <= self.last_stack_state@.len(),
                    i <= crate::exec::trace::STACK_DEPTH,
                    top@ == self.last_stack_state@.take(i as int),
                decreases crate::exec::trace::STACK_DEPTH - i,
            {
                top.push(self.last_stack_state[i]);
                i += 1;
            }
            proof {
                assert(top@ =~= top_values(self.last_stack_state@));
            }
            out.append("Last known stack state (top 16): ");
            let mut values = "[".to_owned();
            values.append(crate::exec::executor::DisplayValues::new(top).text().as_str());
            values.append("]");
            out.append(values.as_str());
            out.append("\n");
        }
        out.append("====================================\n\n");
        proof {
            assert(out@ =~= self.report(error@));
        }
        out
    }
}

/// Calls are nested one deeper where a frame starts, one less deep where one ends, but never less
/// deep than not at all, and nothing else that a program reports makes a difference.
pub proof fn only_frames_change_the_depth(depth: usize, event: TraceEvent)
    ensures
        event is FrameStart ==> depth_after(depth, event) == depth + 1,
        event is FrameEnd && depth > 0 ==> depth_after(depth, event) == depth - 1,
        event is FrameEnd && depth == 0 ==> depth_after(depth, event) == 0,
        !(event is FrameStart) && !(event is FrameEnd) ==> depth_after(depth, event) == depth,
{
}

/// A report shows the sixteen values on top of the stack, or all where there are fewer.
pub proof fn sixteen_values_are_shown(stack: Seq<u64>)
    ensures
        top_values(stack).is_prefix_of(stack),
        top_values(stack).len() == if stack.len() < 16 {
            stack.len()
        } else {
            16
        },
{
    assert(stack.subrange(0, stack.len() as int) =~= stack);
    if stack.len() > 16 {
        assert(stack.take(16) =~= stack.subrange(0, 16));
    }
}

/// A report tells the error, the cycle and the depth of calls, and the values on top of the stack
/// where there are any.
pub proof fn a_report_tells_what_is_known(tracker: DiagnosticTracker, error: Seq<char>)
    ensures
        exists|cycle: Seq<char>, depth: Seq<char>|
            {
                &&& #[trigger] crate::text::shows_number(cycle, tracker.last_cycle as int)
                &&& #[trigger] crate::text::shows_number(depth, tracker.call_depth as int)
                &&& tracker.report(error) == "\n=== Transaction Execution Failed ===\nError: "@ + error
                    + "\nLast known cycle: "@ + cycle + "\nCall depth at failure: "@ + depth + "\n"@
                    + (if tracker.last_stack_state@.len() == 0 {
                    Seq::empty()
                } else {
                    "Last known stack state (top 16): "@ + bracketed(
                        top_values(tracker.last_stack_state@),
                    ) + "\n"@
                }) + "====================================\n\n"@
            },
{
    let cycle = crate::text::decimal(tracker.last_cycle as nat);
    let depth = crate::text::decimal(tracker.call_depth as nat);
    crate::text::a_number_is_what_its_digits_stand_for(tracker.last_cycle as nat, 10);
    crate::text::a_number_is_what_its_digits_stand_for(tracker.call_depth as nat, 10);
    assert(crate::text::shows_number(cycle, tracker.last_cycle as int));
    assert(crate::text::shows_number(depth, tracker.call_depth as int));
}

} // verus!
